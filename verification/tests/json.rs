use serde::ser::SerializeStruct;
use serde::{Serialize, Serializer};
use serde_json::Value;
use whichport::aggregate::{aggregate_listeners, AggregatedListener};
use whichport::listener::Listener;
use whichport::role::Role;

struct RoleWire<'a>(&'a Role);

impl Serialize for RoleWire<'_> {
    fn serialize<S: Serializer>(&self, serializer: S) -> Result<S::Ok, S::Error> {
        let mut state = serializer.serialize_struct("Role", 2)?;
        state.serialize_field("description", self.0.description)?;
        state.serialize_field("confidence", self.0.confidence)?;
        state.end()
    }
}

struct ListenerWire<'a>(&'a AggregatedListener);

impl Serialize for ListenerWire<'_> {
    fn serialize<S: Serializer>(&self, serializer: S) -> Result<S::Ok, S::Error> {
        let mut state = serializer.serialize_struct("AggregatedListener", 7)?;
        state.serialize_field("port", &self.0.port)?;
        state.serialize_field("pid", &self.0.pid)?;
        state.serialize_field("command", &self.0.command)?;
        state.serialize_field("user", &self.0.user)?;
        state.serialize_field("endpoint", &self.0.endpoint)?;
        state.serialize_field("endpoints", &self.0.endpoints)?;
        state.serialize_field("role", &RoleWire(&self.0.role))?;
        state.end()
    }
}

fn listener(port: u16, pid: Option<u32>, command: &str, user: &str, endpoint: &str) -> Listener {
    Listener {
        port,
        pid,
        command: command.to_string(),
        user: user.to_string(),
        endpoint: endpoint.to_string(),
    }
}

fn check_round_trip(a: &AggregatedListener) {
    let json = serde_json::to_string(&ListenerWire(a)).unwrap();
    let back: Value = serde_json::from_str(&json).unwrap();
    assert_eq!(back["port"].as_u64(), Some(a.port as u64));
    match a.pid {
        Some(pid) => assert_eq!(back["pid"].as_u64(), Some(pid as u64)),
        None => assert!(back["pid"].is_null()),
    }
    assert_eq!(back["command"].as_str(), Some(a.command.as_str()));
    assert_eq!(back["user"].as_str(), Some(a.user.as_str()));
    assert_eq!(back["endpoint"].as_str(), Some(a.endpoint.as_str()));
    let endpoints: Vec<&str> = back["endpoints"]
        .as_array()
        .unwrap()
        .iter()
        .map(|e| e.as_str().unwrap())
        .collect();
    assert_eq!(endpoints, a.endpoints);
    assert_eq!(back["role"]["description"].as_str(), Some(a.role.description));
    assert_eq!(back["role"]["confidence"].as_str(), Some(a.role.confidence));
    assert_eq!(back.as_object().unwrap().len(), 7);
    assert_eq!(back["role"].as_object().unwrap().len(), 2);
}

#[test]
fn aggregated_listener_survives_json() {
    let list = [
        listener(80, Some(10), "nginx", "root", "*:80"),
        listener(80, Some(10), "nginx", "root", "[::]:80"),
        listener(22, None, "unknown", "-", "*:22"),
        listener(65535, Some(u32::MAX), "a \"quoted\" \\ name\n\t\u{1}", "josé 𝄞", "[::1]:65535"),
        listener(1, Some(0), "", "", ":1"),
    ];
    let aggregated = aggregate_listeners(&list);
    assert_eq!(aggregated.len(), 4);
    for a in &aggregated {
        check_round_trip(a);
    }
}

#[test]
fn aggregated_listener_as_json_text() {
    let list = [
        listener(80, Some(10), "nginx", "root", "[::]:80"),
        listener(80, Some(10), "nginx", "root", "*:80"),
    ];
    let aggregated = aggregate_listeners(&list);
    assert_eq!(
        serde_json::to_string(&ListenerWire(&aggregated[0])).unwrap(),
        "{\"port\":80,\"pid\":10,\"command\":\"nginx\",\"user\":\"root\",\"endpoint\":\"*:80\",\
         \"endpoints\":[\"*:80\",\"[::]:80\"],\
         \"role\":{\"description\":\"Web server or reverse proxy\",\"confidence\":\"high\"}}"
    );
}
