//! Which tool calls need the user's approval under the configured policy.
use vstd::prelude::*;
use crate::chars::{ascii_lower, eq_str, to_ascii_lowercase, trim, trim_ws};
use crate::gateway_events::opt_view;
use crate::text::{chars_of, string_of};

verus! {

/// The approval policy that a raw setting names: trimmed and lower-cased;
/// none when unset, blank or `never`.
pub open spec fn policy_of(setting: Option<Seq<char>>) -> Option<Seq<char>> {
    match setting {
        None => None,
        Some(v) => {
            let l = ascii_lower(trim_ws(v));
            if l.len() == 0 || l == "never"@ {
                None
            } else {
                Some(l)
            }
        },
    }
}

pub fn approval_policy(setting: Option<&str>) -> (r: Option<String>)
    ensures
        match r {
            Some(s) => policy_of(opt_view(setting)) == Some(s@),
            None => policy_of(opt_view(setting)) is None,
        },
{
    match setting {
        None => None,
        Some(v) => {
            let raw = chars_of(v);
            let l = to_ascii_lowercase(&trim(&raw));
            if l.len() == 0 || eq_str(&l, "never") {
                None
            } else {
                Some(string_of(&l))
            }
        },
    }
}

/// The tools whose calls change the workspace or run commands.
pub open spec fn high_risk(tool_name: Seq<char>) -> bool {
    tool_name == "command_run"@ || tool_name == "apply_diff"@ || tool_name == "delete_file"@
        || tool_name == "write_file"@
}

pub fn is_high_risk_tool(tool_name: &str) -> (b: bool)
    ensures
        b == high_risk(tool_name@),
{
    let t = chars_of(tool_name);
    eq_str(&t, "command_run") || eq_str(&t, "apply_diff") || eq_str(&t, "delete_file") || eq_str(
        &t,
        "write_file",
    )
}

/// Whether a call of `tool_name` needs approval: always under `always`, for
/// high-risk tools under `on-request`, `on_request` or `untrusted`, and
/// never otherwise.
pub open spec fn permission_needed(setting: Option<Seq<char>>, tool_name: Seq<char>) -> bool {
    match policy_of(setting) {
        Some(p) => if p == "always"@ {
            true
        } else if p == "on-request"@ || p == "on_request"@ || p == "untrusted"@ {
            high_risk(tool_name)
        } else {
            false
        },
        None => false,
    }
}

pub fn should_request_permission(setting: Option<&str>, tool_name: &str) -> (b: bool)
    ensures
        b == permission_needed(opt_view(setting), tool_name@),
{
    match approval_policy(setting) {
        Some(p) => {
            let pv = chars_of(p.as_str());
            if eq_str(&pv, "always") {
                true
            } else if eq_str(&pv, "on-request") || eq_str(&pv, "on_request") || eq_str(
                &pv,
                "untrusted",
            ) {
                is_high_risk_tool(tool_name)
            } else {
                false
            }
        },
        None => false,
    }
}

/// Under any policy, a tool that is not high-risk needs approval only when
/// the policy is `always`.
pub proof fn law_low_risk_tools_need_approval_only_always(
    setting: Option<Seq<char>>,
    tool_name: Seq<char>,
)
    requires
        !high_risk(tool_name),
    ensures
        permission_needed(setting, tool_name) ==> policy_of(setting) == Some("always"@),
{
}


/// Under the policies `on-request`, `on_request` and `untrusted` (in any
/// ASCII case, surrounded by any whitespace), each of the high-risk tools
/// `command_run`, `apply_diff`, `delete_file` and `write_file` needs
/// approval, and no other tool does. Under `always` every tool does.
pub proof fn law_request_policies_gate_high_risk_tools(setting: Seq<char>, tool_name: Seq<char>)
    ensures
        (ascii_lower(trim_ws(setting)) == "on-request"@ || ascii_lower(trim_ws(setting)) == "on_request"@
            || ascii_lower(trim_ws(setting)) == "untrusted"@) ==> (permission_needed(Some(setting), tool_name)
            <==> (tool_name == "command_run"@ || tool_name == "apply_diff"@ || tool_name == "delete_file"@
            || tool_name == "write_file"@)),
        ascii_lower(trim_ws(setting)) == "always"@ ==> permission_needed(Some(setting), tool_name),
{
    reveal_strlit("on-request");
    reveal_strlit("on_request");
    reveal_strlit("untrusted");
    reveal_strlit("always");
    reveal_strlit("never");
    let l = ascii_lower(trim_ws(setting));
    if l == "on-request"@ || l == "on_request"@ || l == "untrusted"@ {
        assert(l.len() != 0);
        assert(l.len() != 5);
        assert(l.len() != 6);
        assert(policy_of(Some(setting)) == Some(l));
    }
    if l == "always"@ {
        assert(l.len() == 6);
        assert(policy_of(Some(setting)) == Some(l));
    }
}

/// Without a policy, or under `never`, no tool needs approval.
pub proof fn law_no_policy_needs_no_approval(setting: Option<Seq<char>>, tool_name: Seq<char>)
    requires
        setting matches Some(v) ==> ascii_lower(trim_ws(v)) == "never"@,
    ensures
        !permission_needed(setting, tool_name),
{
}

} // verus!
