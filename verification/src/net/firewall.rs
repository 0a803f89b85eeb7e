//! Outbound connection filter: a connection is allowed only under a valid network
//! capability whose host and port cover the target.
use vstd::prelude::*;
use crate::capability::{CapId, CapabilityTable, PermissionBits, ResourceRef};
use crate::capability::permissions::CONNECT_BIT;
use crate::capability::resource::{ResourceView, wildcard_host, is_wildcard, str_eq};
use crate::capability::table::validate_result;
use crate::task::TaskId;

verus! {

#[derive(Debug, Clone, Copy, PartialEq, Eq)]
pub enum FirewallDecision {
    Allow,
    Deny(&'static str),
}

/// The decision, with the denial's reason as characters.
pub open spec fn decision_view(d: FirewallDecision) -> Option<Seq<char>> {
    match d {
        FirewallDecision::Allow => None,
        FirewallDecision::Deny(r) => Some(r@),
    }
}

/// What the filter decides for `task` connecting to `host:port` under capability `cap_id`.
pub open spec fn outbound_decision(
    caps: Seq<Option<crate::capability::Capability>>,
    task: TaskId,
    cap_id: CapId,
    host: Seq<char>,
    port: u16,
) -> Option<Seq<char>> {
    match validate_result(caps, cap_id as int, task, CONNECT_BIT) {
        Err(_) => Some("no valid network capability"@),
        Ok(c) => match c.resource@ {
            ResourceView::Network { host: h, port: p } => if h != wildcard_host() && h != host {
                Some("host not allowed"@)
            } else if p != 0 && p != port {
                Some("port not allowed"@)
            } else {
                None
            },
            _ => Some("not a network capability"@),
        },
    }
}

/// The filter allows a connection exactly when the capability is valid for CONNECT, names a
/// network endpoint, its host is `*` or the target host, and its port is 0 (any port) or the
/// target port; the host test and the port test are independent of each other. A capability
/// with port 0 therefore gives the same decision for every target port. A refusal names the
/// first test that failed: the capability, its kind, the host, then the port.
pub proof fn lemma_outbound_allowed(
    caps: Seq<Option<crate::capability::Capability>>,
    task: TaskId,
    cap_id: CapId,
    host: Seq<char>,
    port: u16,
    other_port: u16,
)
    ensures
        ({
            let v = validate_result(caps, cap_id as int, task, CONNECT_BIT);
            outbound_decision(caps, task, cap_id, host, port) is None <==> {
                &&& v is Ok
                &&& v->Ok_0.resource@ is Network
                &&& (v->Ok_0.resource@->host == seq!['*'] || v->Ok_0.resource@->host == host)
                &&& (v->Ok_0.resource@->port == 0 || v->Ok_0.resource@->port == port)
            }
        }),
        validate_result(caps, cap_id as int, task, CONNECT_BIT) is Err ==> outbound_decision(
            caps,
            task,
            cap_id,
            host,
            port,
        ) == Some("no valid network capability"@),
        ({
            let v = validate_result(caps, cap_id as int, task, CONNECT_BIT);
            v is Ok && !(v->Ok_0.resource@ is Network) ==> outbound_decision(caps, task, cap_id, host, port)
                == Some("not a network capability"@)
        }),
        ({
            let v = validate_result(caps, cap_id as int, task, CONNECT_BIT);
            v is Ok && v->Ok_0.resource@ is Network && v->Ok_0.resource@->host != seq!['*']
                && v->Ok_0.resource@->host != host ==> outbound_decision(caps, task, cap_id, host, port)
                == Some("host not allowed"@)
        }),
        ({
            let v = validate_result(caps, cap_id as int, task, CONNECT_BIT);
            v is Ok && v->Ok_0.resource@ is Network && (v->Ok_0.resource@->host == seq!['*']
                || v->Ok_0.resource@->host == host) && v->Ok_0.resource@->port != 0
                && v->Ok_0.resource@->port != port ==> outbound_decision(caps, task, cap_id, host, port)
                == Some("port not allowed"@)
        }),
        ({
            let v = validate_result(caps, cap_id as int, task, CONNECT_BIT);
            v is Ok && v->Ok_0.resource@ is Network && v->Ok_0.resource@->port == 0
                ==> outbound_decision(caps, task, cap_id, host, port) == outbound_decision(
                caps,
                task,
                cap_id,
                host,
                other_port,
            )
        }),
{
}

/// Decide whether `task_id` may connect to `target_host:target_port` under `cap_id`.
pub fn check_outbound(
    table: &CapabilityTable,
    task_id: TaskId,
    cap_id: CapId,
    target_host: &str,
    target_port: u16,
) -> (d: FirewallDecision)
    requires
        table.wf(),
    ensures
        decision_view(d) == outbound_decision(table.caps(), task_id, cap_id, target_host@, target_port),
{
    match table.validate(cap_id, task_id, PermissionBits::connect()) {
        Err(_) => FirewallDecision::Deny("no valid network capability"),
        Ok(cap) => match &cap.resource {
            ResourceRef::Network { host, port } => {
                if !is_wildcard(host) && !str_eq(host.as_str(), target_host) {
                    return FirewallDecision::Deny("host not allowed");
                }
                if *port != 0 && *port != target_port {
                    return FirewallDecision::Deny("port not allowed");
                }
                FirewallDecision::Allow
            },
            _ => FirewallDecision::Deny("not a network capability"),
        },
    }
}

} // verus!
