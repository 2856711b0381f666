//! A rule-based guess at what a listener is for, from its command name and
//! its port.

use crate::search::{contains, contains_text};
use crate::text::{ascii_lowercase, chars_of, to_ascii_lowercase};
use vstd::prelude::*;

verus! {

/// What a listener is taken to be for.
#[derive(Debug, Clone, Copy)]
pub struct Role {
    /// What the service is, in a few words.
    pub description: &'static str,
    /// How sure the guess is: `high` or `medium`.
    pub confidence: &'static str,
}

/// A `Role` with its strings as sequences of characters.
pub struct RoleView {
    pub description: Seq<char>,
    pub confidence: Seq<char>,
}

impl View for Role {
    type V = RoleView;

    open spec fn view(&self) -> RoleView {
        RoleView { description: self.description@, confidence: self.confidence@ }
    }
}

/// A rule on the command name: a command that holds `command_pattern` has
/// the role.
pub struct RoleRule {
    pub command_pattern: &'static str,
    pub description: &'static str,
    pub confidence: &'static str,
}

/// A `RoleRule` with its strings as sequences of characters.
pub struct RoleRuleView {
    pub pattern: Seq<char>,
    pub role: RoleView,
}

impl View for RoleRule {
    type V = RoleRuleView;

    open spec fn view(&self) -> RoleRuleView {
        RoleRuleView {
            pattern: self.command_pattern@,
            role: RoleView { description: self.description@, confidence: self.confidence@ },
        }
    }
}

/// A rule on the port: a listener on `port` has the role.
pub struct PortRule {
    pub port: u16,
    pub description: &'static str,
    pub confidence: &'static str,
}

/// A `PortRule` with its strings as sequences of characters.
pub struct PortRuleView {
    pub port: u16,
    pub role: RoleView,
}

impl View for PortRule {
    type V = PortRuleView;

    open spec fn view(&self) -> PortRuleView {
        PortRuleView {
            port: self.port,
            role: RoleView { description: self.description@, confidence: self.confidence@ },
        }
    }
}

/// The rule that a command which holds `pattern` has the role described.
pub open spec fn by_command(
    pattern: Seq<char>,
    description: Seq<char>,
    confidence: Seq<char>,
) -> RoleRuleView {
    RoleRuleView { pattern, role: RoleView { description, confidence } }
}

/// The rule that a listener on `port` has the role described.
pub open spec fn by_port(port: u16, description: Seq<char>, confidence: Seq<char>) -> PortRuleView {
    PortRuleView { port, role: RoleView { description, confidence } }
}

/// The rules on the command name, in the order in which they are tried.
pub open spec fn command_rules() -> Seq<RoleRuleView> {
    seq![
        by_command("postgres"@, "PostgreSQL database"@, "high"@),
        by_command("redis"@, "Redis cache or message broker"@, "high"@),
        by_command("nginx"@, "Web server or reverse proxy"@, "high"@),
        by_command("docker"@, "Container runtime backend"@, "high"@),
        by_command("ollama"@, "Local LLM serving runtime"@, "high"@),
        by_command("rustrover"@, "IDE or developer tooling service"@, "medium"@),
        by_command("jetbrains"@, "IDE or developer tooling service"@, "medium"@),
        by_command("toolbox"@, "IDE or developer tooling service"@, "medium"@),
        by_command("raycast"@, "Productivity launcher local service"@, "medium"@),
        by_command("adobe"@, "Adobe desktop background service"@, "medium"@),
        by_command("node"@, "Node.js application server"@, "medium"@),
    ]
}

/// The rules on the port, in the order in which they are tried.
pub open spec fn port_rules() -> Seq<PortRuleView> {
    seq![
        by_port(22, "SSH service"@, "medium"@),
        by_port(80, "HTTP web service"@, "medium"@),
        by_port(443, "HTTPS web service"@, "medium"@),
        by_port(3306, "MySQL database"@, "medium"@),
        by_port(5432, "PostgreSQL database"@, "medium"@),
        by_port(6379, "Redis cache or message broker"@, "medium"@),
    ]
}

/// The role where no rule applies.
pub open spec fn unknown_role() -> RoleView {
    RoleView { description: "Unknown application service"@, confidence: "medium"@ }
}

/// The role of the first of `rules` whose pattern the lower-cased command
/// name `command` holds.
pub open spec fn role_by_command(command: Seq<char>, rules: Seq<RoleRuleView>) -> Option<RoleView>
    decreases rules.len(),
{
    if rules.len() == 0 {
        None
    } else if contains_text(command, rules[0].pattern) {
        Some(rules[0].role)
    } else {
        role_by_command(command, rules.skip(1))
    }
}

/// The role of the first of `rules` that is for `port`.
pub open spec fn role_by_port(port: u16, rules: Seq<PortRuleView>) -> Option<RoleView>
    decreases rules.len(),
{
    if rules.len() == 0 {
        None
    } else if rules[0].port == port {
        Some(rules[0].role)
    } else {
        role_by_port(port, rules.skip(1))
    }
}

/// The role of a listener on `port` whose process is named `command`: that of
/// the first command rule whose pattern the name holds, letter case of ASCII
/// letters apart; where there is none, that of the port's rule; where there
/// is none either, the unknown role.
pub open spec fn inferred_role(port: u16, command: Seq<char>) -> RoleView {
    match role_by_command(ascii_lowercase(command), command_rules()) {
        Some(role) => role,
        None => match role_by_port(port, port_rules()) {
            Some(role) => role,
            None => unknown_role(),
        },
    }
}

/// The views of a sequence of command rules.
pub open spec fn command_rule_views(rules: Seq<RoleRule>) -> Seq<RoleRuleView> {
    rules.map_values(|rule: RoleRule| rule@)
}

/// The views of a sequence of port rules.
pub open spec fn port_rule_views(rules: Seq<PortRule>) -> Seq<PortRuleView> {
    rules.map_values(|rule: PortRule| rule@)
}

/// The rules on the command name, in the order in which they are tried.
pub fn command_rule_table() -> (table: Vec<RoleRule>)
    ensures
        command_rule_views(table@) == command_rules(),
{
    let mut table: Vec<RoleRule> = Vec::new();
    table.push(
        RoleRule {
            command_pattern: "postgres",
            description: "PostgreSQL database",
            confidence: "high",
        },
    );
    table.push(
        RoleRule {
            command_pattern: "redis",
            description: "Redis cache or message broker",
            confidence: "high",
        },
    );
    table.push(
        RoleRule {
            command_pattern: "nginx",
            description: "Web server or reverse proxy",
            confidence: "high",
        },
    );
    table.push(
        RoleRule {
            command_pattern: "docker",
            description: "Container runtime backend",
            confidence: "high",
        },
    );
    table.push(
        RoleRule {
            command_pattern: "ollama",
            description: "Local LLM serving runtime",
            confidence: "high",
        },
    );
    table.push(
        RoleRule {
            command_pattern: "rustrover",
            description: "IDE or developer tooling service",
            confidence: "medium",
        },
    );
    table.push(
        RoleRule {
            command_pattern: "jetbrains",
            description: "IDE or developer tooling service",
            confidence: "medium",
        },
    );
    table.push(
        RoleRule {
            command_pattern: "toolbox",
            description: "IDE or developer tooling service",
            confidence: "medium",
        },
    );
    table.push(
        RoleRule {
            command_pattern: "raycast",
            description: "Productivity launcher local service",
            confidence: "medium",
        },
    );
    table.push(
        RoleRule {
            command_pattern: "adobe",
            description: "Adobe desktop background service",
            confidence: "medium",
        },
    );
    table.push(
        RoleRule {
            command_pattern: "node",
            description: "Node.js application server",
            confidence: "medium",
        },
    );
    assert(command_rule_views(table@) =~= command_rules());
    table
}

/// The rules on the port, in the order in which they are tried.
pub fn port_rule_table() -> (table: Vec<PortRule>)
    ensures
        port_rule_views(table@) == port_rules(),
{
    let mut table: Vec<PortRule> = Vec::new();
    table.push(PortRule { port: 22, description: "SSH service", confidence: "medium" });
    table.push(PortRule { port: 80, description: "HTTP web service", confidence: "medium" });
    table.push(PortRule { port: 443, description: "HTTPS web service", confidence: "medium" });
    table.push(PortRule { port: 3306, description: "MySQL database", confidence: "medium" });
    table.push(PortRule { port: 5432, description: "PostgreSQL database", confidence: "medium" });
    table.push(
        PortRule { port: 6379, description: "Redis cache or message broker", confidence: "medium" },
    );
    assert(port_rule_views(table@) =~= port_rules());
    table
}

/// Infers what a listener is for. A rule on the command name goes before a
/// rule on the port, and among the rules on the command name the first that
/// applies wins.
pub fn infer_role(port: u16, command: &str) -> (role: Role)
    ensures
        role@ == inferred_role(port, command@),
{
    let name = chars_of(command);
    let lowered = to_ascii_lowercase(&name);
    let by_name = command_rule_table();
    let mut i: usize = 0;
    assert(command_rule_views(by_name@).skip(0) =~= command_rule_views(by_name@));
    while i < by_name.len()
        invariant
            i <= by_name.len(),
            lowered@ == ascii_lowercase(command@),
            role_by_command(lowered@, command_rules()) == role_by_command(
                lowered@,
                command_rule_views(by_name@).skip(i as int),
            ),
        decreases by_name.len() - i,
    {
        let rule = &by_name[i];
        let pattern = chars_of(rule.command_pattern);
        proof {
            let rest = command_rule_views(by_name@).skip(i as int);
            assert(rest[0] == rule@);
            assert(rest.skip(1) =~= command_rule_views(by_name@).skip(i + 1));
        }
        if contains(&lowered, &pattern) {
            return Role { description: rule.description, confidence: rule.confidence };
        }
        i += 1;
    }
    let by_number = port_rule_table();
    let mut k: usize = 0;
    assert(port_rule_views(by_number@).skip(0) =~= port_rule_views(by_number@));
    while k < by_number.len()
        invariant
            k <= by_number.len(),
            role_by_command(ascii_lowercase(command@), command_rules()) is None,
            role_by_port(port, port_rules()) == role_by_port(
                port,
                port_rule_views(by_number@).skip(k as int),
            ),
        decreases by_number.len() - k,
    {
        let rule = &by_number[k];
        proof {
            let rest = port_rule_views(by_number@).skip(k as int);
            assert(rest[0] == rule@);
            assert(rest.skip(1) =~= port_rule_views(by_number@).skip(k + 1));
        }
        if rule.port == port {
            return Role { description: rule.description, confidence: rule.confidence };
        }
        k += 1;
    }
    Role { description: "Unknown application service", confidence: "medium" }
}

} // verus!
