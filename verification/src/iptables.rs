//! Packet-filter rules as command lines.
//!
//! A rule is installed by running its line with `Append` or `Insert`, and
//! removed by running the line with `Delete` and the same fields. Running
//! the lines is the caller's part.

use vstd::prelude::*;
use vstd::string::StringExecFns;
use crate::text::{decimal, push_decimal};

verus! {

/// What a command line does with its rule.
#[derive(Clone, Copy, Debug, PartialEq, Eq, Structural)]
pub enum Action {
    /// Adds the rule at the end of its chain.
    Append,
    /// Removes the rule.
    Delete,
    /// Adds the rule at the front of its chain.
    Insert,
}

/// One rule of the packet filter.
#[derive(Debug)]
pub struct IpTablesRule {
    pub table: String,
    pub chain: String,
    pub input_iface: String,
    pub protocol: String,
    pub target: String,
    pub target_args: String,
}

/// The option that selects `action`.
pub open spec fn action_flag(action: Action) -> Seq<char> {
    match action {
        Action::Append => "-A"@,
        Action::Delete => "-D"@,
        Action::Insert => "-I"@,
    }
}

/// The arguments of the target that hands matched packets to the local port
/// `port`, marked so that they can be routed to it.
pub open spec fn tproxy_args(port: u16) -> Seq<char> {
    "--on-port "@ + decimal(port as nat) + " --tproxy-mark 0x1/0x1"@
}

impl IpTablesRule {
    /// The command line that applies `action` to this rule.
    pub open spec fn line(&self, action: Action) -> Seq<char> {
        "iptables -t "@ + self.table@ + " "@ + action_flag(action) + " "@ + self.chain@ + " -i "@
            + self.input_iface@ + " -p "@ + self.protocol@ + " -j "@ + self.target@ + " "@
            + self.target_args@
    }

    /// The command line that applies `action` to this rule.
    pub fn to_string(&self, action: Action) -> (line: String)
        ensures
            line@ == self.line(action),
    {
        let action_str = match action {
            Action::Append => "-A",
            Action::Delete => "-D",
            Action::Insert => "-I",
        };
        let mut line = String::from_str("iptables -t ");
        line.append(self.table.as_str());
        line.append(" ");
        line.append(action_str);
        line.append(" ");
        line.append(self.chain.as_str());
        line.append(" -i ");
        line.append(self.input_iface.as_str());
        line.append(" -p ");
        line.append(self.protocol.as_str());
        line.append(" -j ");
        line.append(self.target.as_str());
        line.append(" ");
        line.append(self.target_args.as_str());
        assert(line@ =~= self.line(action));
        line
    }

    /// The rule that intercepts the TCP traffic arriving on `input_iface`
    /// and hands it to the local port `port`: target `TPROXY` in chain
    /// `PREROUTING` of table `mangle`.
    pub fn tproxy(input_iface: &str, port: u16) -> (rule: IpTablesRule)
        ensures
            rule.table@ == "mangle"@,
            rule.chain@ == "PREROUTING"@,
            rule.input_iface@ == input_iface@,
            rule.protocol@ == "tcp"@,
            rule.target@ == "TPROXY"@,
            rule.target_args@ == tproxy_args(port),
    {
        let mut target_args = String::from_str("--on-port ");
        push_decimal(&mut target_args, port as u64);
        target_args.append(" --tproxy-mark 0x1/0x1");
        assert(target_args@ =~= tproxy_args(port));
        IpTablesRule {
            table: String::from_str("mangle"),
            chain: String::from_str("PREROUTING"),
            input_iface: input_iface.to_owned(),
            protocol: String::from_str("tcp"),
            target: String::from_str("TPROXY"),
            target_args,
        }
    }
}

} // verus!
