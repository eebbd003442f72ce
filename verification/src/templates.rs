//! Built-in device templates: per-vendor state machines, metadata,
//! command classification and rollback inference.

use vstd::prelude::*;
use crate::device::{has_str, DeviceHandler, Edge, StateMachineDiagnostics};
use crate::errors::ConnectError;
use crate::strutil::{
    ascii_lower, lower_seq, starts_with_seq, str_concat, str_starts_with, strip_prefix_str,
    trim_both, trim_seq,
};
use crate::transaction::{CommandBlockKind, RollbackPolicy, TxBlock, TxStep};

verus! {

/// Capability tags used to describe template compatibility.
#[derive(Debug, Clone, Copy, PartialEq, Eq, Structural)]
pub enum TemplateCapability {
    LoginMode,
    EnableMode,
    ConfigMode,
    SysContext,
    InteractiveInput,
}

/// Metadata for a built-in device template.
#[derive(Debug, Clone, PartialEq, Eq)]
pub struct TemplateMetadata {
    pub name: String,
    pub vendor: String,
    pub family: String,
    pub template_version: String,
    pub capabilities: Vec<TemplateCapability>,
}

/// An edge with these endpoints, command and exit flag, without `{}`
/// substitution.
pub open spec fn edge_is(
    e: Edge,
    from: Seq<char>,
    command: Seq<char>,
    to: Seq<char>,
    is_exit: bool,
) -> bool {
    e.0@ == from && e.1@ == command && e.2@ == to && e.3 == is_exit && !e.4
}

/// Whether `key` (already lowercased) names a built-in template.
pub open spec fn is_builtin(key: Seq<char>) -> bool {
    key == "cisco"@ || key == "huawei"@ || key == "h3c"@ || key == "hillstone"@ || key
        == "juniper"@ || key == "array"@
}

/// Names of all built-in templates.
pub fn available_templates() -> (r: Vec<String>)
    ensures
        r@.len() == 6,
        r@[0]@ == "cisco"@ && r@[1]@ == "huawei"@ && r@[2]@ == "h3c"@ && r@[3]@ == "hillstone"@
            && r@[4]@ == "juniper"@ && r@[5]@ == "array"@,
{
    let mut v: Vec<String> = Vec::new();
    v.push("cisco".to_owned());
    v.push("huawei".to_owned());
    v.push("h3c".to_owned());
    v.push("hillstone".to_owned());
    v.push("juniper".to_owned());
    v.push("array".to_owned());
    v
}

/// Metadata for one lowercased template key, when it is built in.
fn metadata_for(key: &str) -> (r: Option<TemplateMetadata>)
    ensures
        r is Some <==> is_builtin(key@),
        r matches Some(m) ==> m.name@ == key@,
        r matches Some(m) && m.name@ == "cisco"@ ==> (r matches Some(m2) && m2.vendor@
            == "Cisco"@ && m2.family@ == "IOS/IOS-XE"@),
        r matches Some(m) && m.name@ == "huawei"@ ==> (r matches Some(m2) && m2.vendor@
            == "Huawei"@ && m2.family@ == "VRP"@),
        r matches Some(m) && m.name@ == "h3c"@ ==> (r matches Some(m2) && m2.vendor@ == "H3C"@
            && m2.family@ == "Comware"@),
        r matches Some(m) && m.name@ == "hillstone"@ ==> (r matches Some(m2) && m2.vendor@
            == "Hillstone"@ && m2.family@ == "SG"@),
        r matches Some(m) && m.name@ == "juniper"@ ==> (r matches Some(m2) && m2.vendor@
            == "Juniper"@ && m2.family@ == "JunOS"@),
        r matches Some(m) && m.name@ == "array"@ ==> (r matches Some(m2) && m2.vendor@
            == "Array Networks"@ && m2.family@ == "APV"@),
        r matches Some(m) ==> m.template_version@ == "1.0.0"@,
{
    proof {
        reveal_strlit("cisco");
        reveal_strlit("huawei");
        reveal_strlit("h3c");
        reveal_strlit("hillstone");
        reveal_strlit("juniper");
        reveal_strlit("array");
        assert("cisco"@.len() == 5);
        assert("huawei"@.len() == 6);
        assert("h3c"@.len() == 3);
        assert("hillstone"@.len() == 9);
        assert("juniper"@.len() == 7);
        assert("array"@.len() == 5);
        assert("cisco"@[0] == 'c' && "array"@[0] == 'a');
        assert("cisco"@ != "huawei"@ && "cisco"@ != "h3c"@ && "cisco"@ != "hillstone"@
            && "cisco"@ != "juniper"@ && "cisco"@ != "array"@);
        assert("huawei"@ != "h3c"@ && "huawei"@ != "hillstone"@ && "huawei"@ != "juniper"@
            && "huawei"@ != "array"@);
        assert("h3c"@ != "hillstone"@ && "h3c"@ != "juniper"@ && "h3c"@ != "array"@);
        assert("hillstone"@ != "juniper"@ && "hillstone"@ != "array"@);
        assert("juniper"@ != "array"@);
    }
    if crate::device::str_eq(key, "cisco") {
        let mut caps: Vec<TemplateCapability> = Vec::new();
        caps.push(TemplateCapability::LoginMode);
        caps.push(TemplateCapability::EnableMode);
        caps.push(TemplateCapability::ConfigMode);
        caps.push(TemplateCapability::InteractiveInput);
        Some(
            TemplateMetadata {
                name: "cisco".to_owned(),
                vendor: "Cisco".to_owned(),
                family: "IOS/IOS-XE".to_owned(),
                template_version: "1.0.0".to_owned(),
                capabilities: caps,
            },
        )
    } else if crate::device::str_eq(key, "huawei") {
        let mut caps: Vec<TemplateCapability> = Vec::new();
        caps.push(TemplateCapability::EnableMode);
        caps.push(TemplateCapability::ConfigMode);
        caps.push(TemplateCapability::InteractiveInput);
        Some(
            TemplateMetadata {
                name: "huawei".to_owned(),
                vendor: "Huawei".to_owned(),
                family: "VRP".to_owned(),
                template_version: "1.0.0".to_owned(),
                capabilities: caps,
            },
        )
    } else if crate::device::str_eq(key, "h3c") {
        let mut caps: Vec<TemplateCapability> = Vec::new();
        caps.push(TemplateCapability::EnableMode);
        caps.push(TemplateCapability::ConfigMode);
        Some(
            TemplateMetadata {
                name: "h3c".to_owned(),
                vendor: "H3C".to_owned(),
                family: "Comware".to_owned(),
                template_version: "1.0.0".to_owned(),
                capabilities: caps,
            },
        )
    } else if crate::device::str_eq(key, "hillstone") {
        let mut caps: Vec<TemplateCapability> = Vec::new();
        caps.push(TemplateCapability::EnableMode);
        caps.push(TemplateCapability::ConfigMode);
        caps.push(TemplateCapability::InteractiveInput);
        Some(
            TemplateMetadata {
                name: "hillstone".to_owned(),
                vendor: "Hillstone".to_owned(),
                family: "SG".to_owned(),
                template_version: "1.0.0".to_owned(),
                capabilities: caps,
            },
        )
    } else if crate::device::str_eq(key, "juniper") {
        let mut caps: Vec<TemplateCapability> = Vec::new();
        caps.push(TemplateCapability::EnableMode);
        caps.push(TemplateCapability::ConfigMode);
        caps.push(TemplateCapability::InteractiveInput);
        Some(
            TemplateMetadata {
                name: "juniper".to_owned(),
                vendor: "Juniper".to_owned(),
                family: "JunOS".to_owned(),
                template_version: "1.0.0".to_owned(),
                capabilities: caps,
            },
        )
    } else if crate::device::str_eq(key, "array") {
        let mut caps: Vec<TemplateCapability> = Vec::new();
        caps.push(TemplateCapability::LoginMode);
        caps.push(TemplateCapability::EnableMode);
        caps.push(TemplateCapability::ConfigMode);
        caps.push(TemplateCapability::SysContext);
        caps.push(TemplateCapability::InteractiveInput);
        Some(
            TemplateMetadata {
                name: "array".to_owned(),
                vendor: "Array Networks".to_owned(),
                family: "APV".to_owned(),
                template_version: "1.0.0".to_owned(),
                capabilities: caps,
            },
        )
    } else {
        None
    }
}

/// Metadata for all built-in templates.
pub fn template_catalog() -> (r: Vec<TemplateMetadata>)
    ensures
        r@.len() == 6,
{
    let names = available_templates();
    let mut out: Vec<TemplateMetadata> = Vec::new();
    let mut i: usize = 0;
    while i < names.len()
        invariant
            i <= names@.len(),
            names@.len() == 6,
            out@.len() == i,
            forall|j: int| 0 <= j < 6 ==> is_builtin(#[trigger] (names@[j])@),
        decreases names@.len() - i,
    {
        match metadata_for(names[i].as_str()) {
            Some(m) => {
                out.push(m);
            },
            None => {
                proof {
                    assert(false);
                }
            },
        }
        i += 1;
    }
    out
}

/// Metadata for one template by name, case-insensitively.
pub fn template_metadata(name: &str) -> (r: Result<TemplateMetadata, ConnectError>)
    ensures
        r is Ok <==> is_builtin(lower_seq(name@)),
        r matches Ok(m) ==> m.name@ == lower_seq(name@),
        r matches Ok(m) && m.name@ == "cisco"@ ==> (r matches Ok(m2) && m2.vendor@ == "Cisco"@
            && m2.family@ == "IOS/IOS-XE"@),
        r matches Ok(m) && m.name@ == "huawei"@ ==> (r matches Ok(m2) && m2.vendor@ == "Huawei"@
            && m2.family@ == "VRP"@),
        r matches Ok(m) && m.name@ == "h3c"@ ==> (r matches Ok(m2) && m2.vendor@ == "H3C"@
            && m2.family@ == "Comware"@),
        r matches Ok(m) && m.name@ == "hillstone"@ ==> (r matches Ok(m2) && m2.vendor@
            == "Hillstone"@ && m2.family@ == "SG"@),
        r matches Ok(m) && m.name@ == "juniper"@ ==> (r matches Ok(m2) && m2.vendor@
            == "Juniper"@ && m2.family@ == "JunOS"@),
        r matches Ok(m) && m.name@ == "array"@ ==> (r matches Ok(m2) && m2.vendor@
            == "Array Networks"@ && m2.family@ == "APV"@),
        r matches Ok(m) ==> m.template_version@ == "1.0.0"@,
        r matches Err(e) ==> e is TemplateNotFound,
{
    let key = ascii_lower(name);
    match metadata_for(key.as_str()) {
        Some(m) => Ok(m),
        None => Err(ConnectError::TemplateNotFound(name.to_owned())),
    }
}

/// Whether a command text reads as a read-only (`show`-like) command.
pub open spec fn is_show_command(cmd: Seq<char>) -> bool {
    let c = lower_seq(trim_seq(cmd));
    starts_with_seq(c, "show "@) || starts_with_seq(c, "display "@) || starts_with_seq(
        c,
        "ping "@,
    ) || starts_with_seq(c, "traceroute "@)
}

/// Classifies a command for a template: read-only commands are `Show`,
/// everything else is `Config`.
pub fn classify_command(template: &str, command: &str) -> (r: Result<
    CommandBlockKind,
    ConnectError,
>)
    ensures
        r is Ok <==> is_builtin(lower_seq(template@)),
        r matches Ok(k) ==> (k is Show <==> is_show_command(command@)),
        r matches Err(e) ==> e is TemplateNotFound,
{
    match template_metadata(template) {
        Ok(_) => {},
        Err(e) => {
            return Err(e);
        },
    }
    let trimmed = trim_both(command);
    let cmd = ascii_lower(trimmed.as_str());
    let show = str_starts_with(cmd.as_str(), "show ") || str_starts_with(cmd.as_str(), "display ")
        || str_starts_with(cmd.as_str(), "ping ") || str_starts_with(cmd.as_str(), "traceroute ");
    if show {
        Ok(CommandBlockKind::Show)
    } else {
        Ok(CommandBlockKind::Config)
    }
}

/// The rollback command inferred for `cmd` under a template's vendor
/// rules, or nothing when none can be inferred.
pub open spec fn infer_spec(key: Seq<char>, cmd: Seq<char>) -> Option<Seq<char>> {
    let t = trim_seq(cmd);
    if is_show_command(cmd) {
        None
    } else if key == "juniper"@ {
        if starts_with_seq(t, "set "@) {
            Some("delete "@ + t.skip("set "@.len() as int))
        } else if starts_with_seq(t, "activate "@) {
            Some("deactivate "@ + t.skip("activate "@.len() as int))
        } else if starts_with_seq(t, "deactivate "@) {
            Some("activate "@ + t.skip("deactivate "@.len() as int))
        } else {
            None
        }
    } else if key == "huawei"@ || key == "h3c"@ {
        if starts_with_seq(lower_seq(t), "undo "@) {
            None
        } else {
            Some("undo "@ + t)
        }
    } else {
        if starts_with_seq(lower_seq(t), "no "@) {
            None
        } else {
            Some("no "@ + t)
        }
    }
}

/// Infers the compensating command for one forward command.
fn infer_rollback_command(key: &str, command: &str) -> (r: Option<String>)
    ensures
        match r {
            Some(rc) => infer_spec(key@, command@) == Some(rc@),
            None => infer_spec(key@, command@) is None,
        },
{
    let trimmed = trim_both(command);
    let lower = ascii_lower(trimmed.as_str());
    let show = str_starts_with(lower.as_str(), "show ") || str_starts_with(
        lower.as_str(),
        "display ",
    ) || str_starts_with(lower.as_str(), "ping ") || str_starts_with(
        lower.as_str(),
        "traceroute ",
    );
    if show {
        return None;
    }
    if crate::device::str_eq(key, "juniper") {
        match strip_prefix_str(trimmed.as_str(), "set ") {
            Some(rest) => {
                return Some(str_concat("delete ", rest.as_str()));
            },
            None => {},
        }
        match strip_prefix_str(trimmed.as_str(), "activate ") {
            Some(rest) => {
                return Some(str_concat("deactivate ", rest.as_str()));
            },
            None => {},
        }
        match strip_prefix_str(trimmed.as_str(), "deactivate ") {
            Some(rest) => {
                return Some(str_concat("activate ", rest.as_str()));
            },
            None => {},
        }
        None
    } else if crate::device::str_eq(key, "huawei") || crate::device::str_eq(key, "h3c") {
        if str_starts_with(lower.as_str(), "undo ") {
            None
        } else {
            Some(str_concat("undo ", trimmed.as_str()))
        }
    } else {
        if str_starts_with(lower.as_str(), "no ") {
            None
        } else {
            Some(str_concat("no ", trimmed.as_str()))
        }
    }
}

/// Builds a transaction block from a template and a command list: an
/// all-`Show` list becomes a `Show` block without rollback; otherwise a
/// `Config` block, with whole-resource rollback when an undo command is
/// given and per-step inferred rollback otherwise.  Inference must
/// succeed for every step, else the block is refused.
pub fn build_tx_block(
    template: &str,
    block_name: &str,
    mode: &str,
    commands: &Vec<String>,
    timeout_secs: Option<u64>,
    resource_rollback_command: Option<String>,
) -> (r: Result<TxBlock, ConnectError>)
    ensures
        !is_builtin(lower_seq(template@)) ==> (r matches Err(e) && e is TemplateNotFound),
        is_builtin(lower_seq(template@)) && commands@.len() == 0 ==> (r matches Err(e)
            && e is InvalidTransaction),
        r matches Ok(b) ==> {
            &&& b.name@ == block_name@
            &&& b.steps@.len() == commands@.len()
            &&& forall|i: int|
                0 <= i < commands@.len() ==> (#[trigger] b.steps@[i]).command@ == (
                commands@[i])@ && b.steps@[i].mode@ == mode@ && b.steps@[i].timeout_secs
                    == timeout_secs
            &&& (b.kind is Show <==> (forall|i: int|
                0 <= i < commands@.len() ==> is_show_command(#[trigger] (commands@[i])@)))
            &&& (b.kind is Show ==> b.rollback_policy is NoRollback)
            &&& (b.kind is Config ==> (match resource_rollback_command {
                Some(undo) => b.rollback_policy matches RollbackPolicy::WholeResource {
                    mode: m,
                    undo_command: u,
                    timeout_secs: t,
                } && m@ == mode@ && u@ == undo@ && t == timeout_secs,
                None => b.rollback_policy is PerStep && forall|i: int|
                    0 <= i < commands@.len() ==> ((
                    #[trigger] b.steps@[i]).rollback_command matches Some(rc) && infer_spec(
                        lower_seq(template@),
                        (commands@[i])@,
                    ) == Some(rc@)),
            }))
            &&& b.fail_fast == true
        },
        is_builtin(lower_seq(template@)) && commands@.len() > 0 && !(forall|i: int|
            0 <= i < commands@.len() ==> is_show_command(#[trigger] (commands@[i])@))
            && resource_rollback_command is None && (exists|i: int|
            0 <= i < commands@.len() && infer_spec(
                lower_seq(template@),
                #[trigger] (commands@[i])@,
            ) is None) ==> (r matches Err(e) && e is InvalidTransaction),
        is_builtin(lower_seq(template@)) && commands@.len() > 0 && ((forall|i: int|
            0 <= i < commands@.len() ==> is_show_command(#[trigger] (commands@[i])@))
            || resource_rollback_command is Some || (forall|i: int|
            0 <= i < commands@.len() ==> infer_spec(
                lower_seq(template@),
                #[trigger] (commands@[i])@,
            ) is Some)) ==> r is Ok,
    {
    let key = ascii_lower(template);
    match template_metadata(key.as_str()) {
        Ok(_) => {},
        Err(_) => {
            proof {
                crate::device::lemma_lower_idempotent(template@);
            }
            return Err(ConnectError::TemplateNotFound(template.to_owned()));
        },
    }
    proof {
        crate::device::lemma_lower_idempotent(template@);
    }
    if commands.len() == 0 {
        return Err(
            ConnectError::InvalidTransaction(
                "cannot build tx block with empty commands".to_owned(),
            ),
        );
    }

    let mut all_show = true;
    let mut i: usize = 0;
    while i < commands.len()
        invariant
            i <= commands@.len(),
            all_show == (forall|j: int|
                0 <= j < i ==> is_show_command(#[trigger] (commands@[j])@)),
        decreases commands@.len() - i,
    {
        let trimmed = trim_both(commands[i].as_str());
        let cmd = ascii_lower(trimmed.as_str());
        let show = str_starts_with(cmd.as_str(), "show ") || str_starts_with(
            cmd.as_str(),
            "display ",
        ) || str_starts_with(cmd.as_str(), "ping ") || str_starts_with(
            cmd.as_str(),
            "traceroute ",
        );
        if !show {
            all_show = false;
            proof {
                assert(!is_show_command((commands@[i as int])@));
            }
        }
        i += 1;
    }

    if all_show {
        let mut steps: Vec<TxStep> = Vec::new();
        let mut i: usize = 0;
        while i < commands.len()
            invariant
                i <= commands@.len(),
                steps@.len() == i,
                forall|j: int|
                    0 <= j < i ==> (#[trigger] steps@[j]).command@ == (commands@[j])@
                        && steps@[j].mode@ == mode@ && steps@[j].timeout_secs == timeout_secs
                        && steps@[j].rollback_command is None,
            decreases commands@.len() - i,
        {
            steps.push(
                TxStep {
                    mode: mode.to_owned(),
                    command: commands[i].clone(),
                    timeout_secs,
                    rollback_command: None,
                },
            );
            i += 1;
        }
        return Ok(
            TxBlock {
                name: block_name.to_owned(),
                kind: CommandBlockKind::Show,
                rollback_policy: RollbackPolicy::NoRollback,
                steps,
                fail_fast: true,
            },
        );
    }

    let per_step = resource_rollback_command.is_none();
    let rollback_policy = match resource_rollback_command {
        Some(undo) => RollbackPolicy::WholeResource {
            mode: mode.to_owned(),
            undo_command: undo,
            timeout_secs,
        },
        None => RollbackPolicy::PerStep,
    };

    let mut steps: Vec<TxStep> = Vec::new();
    let mut i: usize = 0;
    while i < commands.len()
        invariant
            i <= commands@.len(),
            steps@.len() == i,
            key@ == lower_seq(template@),
            is_builtin(lower_seq(template@)),
            per_step == (resource_rollback_command is None),
            !(forall|j: int|
                0 <= j < commands@.len() ==> is_show_command(#[trigger] (commands@[j])@)),
            forall|j: int|
                0 <= j < i ==> (#[trigger] steps@[j]).command@ == (commands@[j])@ && steps@[j].mode@
                    == mode@ && steps@[j].timeout_secs == timeout_secs,
            per_step ==> forall|j: int|
                0 <= j < i ==> ((#[trigger] steps@[j]).rollback_command matches Some(rc)
                    && infer_spec(lower_seq(template@), (commands@[j])@) == Some(rc@)),
            !per_step ==> forall|j: int|
                0 <= j < i ==> (#[trigger] steps@[j]).rollback_command is None,
        decreases commands@.len() - i,
    {
        let rollback_command = if per_step {
            match infer_rollback_command(key.as_str(), commands[i].as_str()) {
                Some(rc) => Some(rc),
                None => {
                    proof {
                        assert(infer_spec(lower_seq(template@), (commands@[i as int])@) is None);
                    }
                    return Err(
                        ConnectError::InvalidTransaction(
                            str_concat(
                                str_concat(
                                    "cannot infer rollback command for '",
                                    commands[i].as_str(),
                                ).as_str(),
                                "'; provide resource_rollback_command",
                            ),
                        ),
                    );
                },
            }
        } else {
            None
        };
        steps.push(
            TxStep {
                mode: mode.to_owned(),
                command: commands[i].clone(),
                timeout_secs,
                rollback_command,
            },
        );
        i += 1;
    }

    proof {
        if per_step {
            assert forall|i: int|
                0 <= i < commands@.len() implies !(infer_spec(
                lower_seq(template@),
                #[trigger] (commands@[i])@,
            ) is None) by {
                assert(steps@[i].rollback_command is Some);
            }
        }
    }
    Ok(
        TxBlock {
            name: block_name.to_owned(),
            kind: CommandBlockKind::Config,
            rollback_policy,
            steps,
            fail_fast: true,
        },
    )
}

} // verus!

verus! {

/// A handler for Cisco IOS and IOS-XE devices.
#[verifier::rlimit(100)]
pub fn cisco() -> (r: Result<DeviceHandler, ConnectError>)
    ensures
        r matches Ok(h) ==> h.wf() && h.endpoints_declared() && h.state_index_m() == 0,
        r matches Ok(h) ==> h.states_m().len() == 7,
        r matches Ok(h) ==> h.states_m()[3] == lower_seq("Config"@),
        r matches Ok(h) ==> h.states_m()[4int] == lower_seq("Enable"@),
        r matches Ok(h) ==> h.states_m()[5] == lower_seq("Login"@),
        r matches Ok(h) ==> h.states_m()[6] == lower_seq("EnablePassword"@),
        r matches Ok(h) ==> h.edges_m().len() == 4,
        r matches Ok(h) ==> edge_is(
            h.edges_m()[0],
            lower_seq("Login"@),
            "enable"@,
            lower_seq("Enable"@),
            false,
        ),
        r matches Ok(h) ==> edge_is(
            h.edges_m()[1],
            lower_seq("Enable"@),
            "configure terminal"@,
            lower_seq("Config"@),
            false,
        ),
        r matches Ok(h) ==> edge_is(
            h.edges_m()[2],
            lower_seq("Config"@),
            "exit"@,
            lower_seq("Enable"@),
            true,
        ),
        r matches Ok(h) ==> edge_is(
            h.edges_m()[3],
            lower_seq("Enable"@),
            "exit"@,
            lower_seq("Login"@),
            true,
        ),
        r matches Ok(h) ==> forall|i: int| h.is_prompt_index(i) <==> 3 <= i <= 5,
        r matches Err(e) ==> e is InvalidDeviceHandlerConfig,
{
    let prompt: Vec<(String, Vec<String>)> = vec![
        ("Config".to_owned(), vec![r"^\S+\(\S+\)#\s*$".to_owned()]),
        ("Enable".to_owned(), vec![r"^[^\s#]+#\s*$".to_owned()]),
        ("Login".to_owned(), vec![r"^[^\s<]+>\s*$".to_owned()]),
    ];
    let write: Vec<(String, (bool, String, bool), Vec<String>)> = vec![
        (
            "EnablePassword".to_owned(),
            (true, "EnablePassword".to_owned(), true),
            vec![r"^\x00*\r(Enable )?Password:".to_owned()],
        ),
    ];
    let more_regex: Vec<String> = vec![r"\s*<--- More --->\s*".to_owned()];
    let error_regex: Vec<String> = vec![
        r"% Invalid command at '\^' marker\.".to_owned(),
        r"% Invalid parameter detected at '\^' marker\.".to_owned(),
        r"invalid vlan \(reserved value\) at '\^' marker\.".to_owned(),
        r"ERROR: VLAN \d+ is not a primary vlan".to_owned(),
        r"\^$".to_owned(),
        r"^%.+".to_owned(),
        r"^Command authorization failed.*".to_owned(),
        r"^Command rejected:.*".to_owned(),
        r"ERROR:.+".to_owned(),
        r"Invalid password".to_owned(),
        r"Access denied.".to_owned(),
        r"End address less than start address".to_owned(),
    ];
    let edges: Vec<Edge> = vec![
        ("Login".to_owned(), "enable".to_owned(), "Enable".to_owned(), false, false),
        ("Enable".to_owned(), "configure terminal".to_owned(), "Config".to_owned(), false, false),
        ("Config".to_owned(), "exit".to_owned(), "Enable".to_owned(), true, false),
        ("Enable".to_owned(), "exit".to_owned(), "Login".to_owned(), true, false),
    ];
    let ignore_errors: Vec<String> = vec![r"ERROR: object \(.+\) does not exist.".to_owned()];
    let ghost promptv = prompt@;
    let ghost edgesv = edges@;
    let ghost writev = write@;
    let r = DeviceHandler::new(
        prompt,
        Vec::new(),
        write,
        more_regex,
        error_regex,
        edges,
        ignore_errors,
        Vec::new(),
    );
    proof {
        if r is Ok {
            let h = r->Ok_0;
            assert(h.states_m()[3] == lower_seq(promptv[0].0@));
            assert(h.states_m()[4] == lower_seq(promptv[1].0@));
            assert(h.states_m()[5] == lower_seq(promptv[2].0@));
            assert forall|k: int|
                0 <= k < h.edges_m().len() implies h.declared(
                (#[trigger] h.edges_m()[k]).0@,
            ) && h.declared(h.edges_m()[k].2@) by {
                assert(h.edges_m()[k].0@ == lower_seq(edgesv[k].0@));
                assert(h.edges_m()[k].2@ == lower_seq(edgesv[k].2@));
                if k == 0 {
                    assert(h.edges_m()[0].0@ == h.states_m()[5]);
                    assert(h.edges_m()[0].2@ == h.states_m()[4]);
                } else if k == 1 {
                    assert(h.edges_m()[1].0@ == h.states_m()[4int]);
                    assert(h.edges_m()[1].2@ == h.states_m()[3]);
                } else if k == 2 {
                    assert(h.edges_m()[2].0@ == h.states_m()[3]);
                    assert(h.edges_m()[2].2@ == h.states_m()[4int]);
                } else {
                    assert(h.edges_m()[3].0@ == h.states_m()[4int]);
                    assert(h.edges_m()[3].2@ == h.states_m()[5]);
                }
            }
            assert(h.states_m()[6] == lower_seq(writev[0].0@));
            assert(promptv[0].0@ == "Config"@ && promptv[1].0@ == "Enable"@ && promptv[2].0@
                == "Login"@);
            assert(writev[0].0@ == "EnablePassword"@);
            assert forall|k: int|
                0 <= k < 4 implies (#[trigger] h.edges_m()[k]).1@ == edgesv[k].1@
                && h.edges_m()[k].3 == edgesv[k].3 && h.edges_m()[k].4 == edgesv[k].4 by {}
            assert(edgesv[0].1@ == "enable"@ && !edgesv[0].3 && !edgesv[0].4);
            assert(edgesv[1].1@ == "configure terminal"@ && !edgesv[1].3 && !edgesv[1].4);
            assert(edgesv[2].1@ == "exit"@ && edgesv[2].3 && !edgesv[2].4);
            assert(edgesv[3].1@ == "exit"@ && edgesv[3].3 && !edgesv[3].4);
        }
    }
    r
}

} // verus!

verus! {

/// A handler for Huawei VRP devices.
pub fn huawei() -> (r: Result<DeviceHandler, ConnectError>)
    ensures
        r matches Ok(h) ==> h.wf() && h.endpoints_declared() && h.state_index_m() == 0,
        r matches Ok(h) ==> {
            &&& h.states_m()[3] == lower_seq("Config"@)
            &&& h.states_m()[4int] == lower_seq("Enable"@)
            &&& h.edges_m().len() == 2
            &&& edge_is(
                h.edges_m()[0],
                lower_seq("Enable"@),
                "system-view"@,
                lower_seq("Config"@),
                false,
            )
            &&& edge_is(h.edges_m()[1], lower_seq("Config"@), "exit"@, lower_seq("Enable"@), true)
        },
        r matches Err(e) ==> e is InvalidDeviceHandlerConfig,
{
    let prompt: Vec<(String, Vec<String>)> = vec![
        ("Config".to_owned(), vec![r"^(HRP_M|HRP_S){0,1}\[.+]+\s*$".to_owned()]),
        ("Enable".to_owned(), vec![r"^(RBM_P|RBM_S)?<.+>\s*$".to_owned()]),
    ];
    let write: Vec<(String, (bool, String, bool), Vec<String>)> = vec![
        (
            "Save".to_owned(),
            (false, "y".to_owned(), true),
            vec![
                r"Are you sure to continue\?\[Y\/N\]: ".to_owned(),
                r"startup saved-configuration file on peer device\?\[Y\/N\]: ".to_owned(),
                r"Warning: The current configuration will be written to the device. Continue\? \[Y\/N\]: ".to_owned(),
            ],
        ),
    ];
    let more_regex: Vec<String> = vec![r"\s*---- More ----\s*".to_owned()];
    let error_regex: Vec<String> = vec![r"Error: .+$".to_owned(), r"\^$".to_owned()];
    let edges: Vec<Edge> = vec![
        ("Enable".to_owned(), "system-view".to_owned(), "Config".to_owned(), false, false),
        ("Config".to_owned(), "exit".to_owned(), "Enable".to_owned(), true, false),
    ];
    let ignore_errors: Vec<String> = vec![
        r"Error: Address item conflicts!".to_owned(),
        r"Error: The address item does not exist!".to_owned(),
        r"Error: The delete configuration does not exist.".to_owned(),
        r"Error: The address or address set is not created!".to_owned(),
        r"Error: Cannot add! Service item conflicts or illegal reference!".to_owned(),
        r"Error: The service item does not exist!".to_owned(),
        r"Error: Service item conflicts!".to_owned(),
        r"Error: The service set is not created(.+)!".to_owned(),
        r"Error: No such a time-range.".to_owned(),
        r"Error: The specified address-group does not exist.".to_owned(),
        r"Error: The specified rule does not exist yet.".to_owned(),
        r"This condition has already been configured".to_owned(),
        r"[a-zA-Z]* (item conflicts|Service item exists\.)".to_owned(),
        r"Error: Worng parameter found at.*".to_owned(),
    ];
    let ghost promptv = prompt@;
    let ghost edgesv = edges@;
    let r = DeviceHandler::new(
        prompt,
        Vec::new(),
        write,
        more_regex,
        error_regex,
        edges,
        ignore_errors,
        Vec::new(),
    );
    proof {
        if r is Ok {
            let h = r->Ok_0;
            assert(h.states_m()[3] == lower_seq(promptv[0].0@));
            assert(h.states_m()[4] == lower_seq(promptv[1].0@));
            assert forall|k: int|
                0 <= k < h.edges_m().len() implies h.declared(
                (#[trigger] h.edges_m()[k]).0@,
            ) && h.declared(h.edges_m()[k].2@) by {
                assert(h.edges_m()[k].0@ == lower_seq(edgesv[k].0@));
                assert(h.edges_m()[k].2@ == lower_seq(edgesv[k].2@));
                if k == 0 {
                    assert(h.edges_m()[0].0@ == h.states_m()[4int]);
                    assert(h.edges_m()[0].2@ == h.states_m()[3]);
                } else {
                    assert(h.edges_m()[1].0@ == h.states_m()[3]);
                    assert(h.edges_m()[1].2@ == h.states_m()[4int]);
                }
            }
        }
    }
    r
}

/// A handler for H3C Comware devices.
pub fn h3c() -> (r: Result<DeviceHandler, ConnectError>)
    ensures
        r matches Ok(h) ==> h.wf() && h.endpoints_declared() && h.state_index_m() == 0,
        r matches Ok(h) ==> {
            &&& h.states_m()[3] == lower_seq("Config"@)
            &&& h.states_m()[4int] == lower_seq("Enable"@)
            &&& h.edges_m().len() == 2
            &&& edge_is(
                h.edges_m()[0],
                lower_seq("Enable"@),
                "system-view"@,
                lower_seq("Config"@),
                false,
            )
            &&& edge_is(h.edges_m()[1], lower_seq("Config"@), "exit"@, lower_seq("Enable"@), true)
        },
        r matches Err(e) ==> e is InvalidDeviceHandlerConfig,
{
    let prompt: Vec<(String, Vec<String>)> = vec![
        ("Config".to_owned(), vec![r"^(RBM_P|RBM_S)?\[.+\]\s*$".to_owned()]),
        ("Enable".to_owned(), vec![r"^(RBM_P|RBM_S)?<.+>\s*$".to_owned()]),
    ];
    let more_regex: Vec<String> = vec![r"\s*---- More ----\s*".to_owned()];
    let error_regex: Vec<String> = vec![
        r".+\^.+".to_owned(),
        r".+%.+".to_owned(),
        r".+doesn't exist.+".to_owned(),
        r".+does not exist.+".to_owned(),
        r"Object group with given name exists with different type.".to_owned(),
    ];
    let edges: Vec<Edge> = vec![
        ("Enable".to_owned(), "system-view".to_owned(), "Config".to_owned(), false, false),
        ("Config".to_owned(), "exit".to_owned(), "Enable".to_owned(), true, false),
    ];
    let ghost promptv = prompt@;
    let ghost edgesv = edges@;
    let r = DeviceHandler::new(
        prompt,
        Vec::new(),
        Vec::new(),
        more_regex,
        error_regex,
        edges,
        Vec::new(),
        Vec::new(),
    );
    proof {
        if r is Ok {
            let h = r->Ok_0;
            assert(h.states_m()[3] == lower_seq(promptv[0].0@));
            assert(h.states_m()[4] == lower_seq(promptv[1].0@));
            assert forall|k: int|
                0 <= k < h.edges_m().len() implies h.declared(
                (#[trigger] h.edges_m()[k]).0@,
            ) && h.declared(h.edges_m()[k].2@) by {
                assert(h.edges_m()[k].0@ == lower_seq(edgesv[k].0@));
                assert(h.edges_m()[k].2@ == lower_seq(edgesv[k].2@));
                if k == 0 {
                    assert(h.edges_m()[0].0@ == h.states_m()[4int]);
                    assert(h.edges_m()[0].2@ == h.states_m()[3]);
                } else {
                    assert(h.edges_m()[1].0@ == h.states_m()[3]);
                    assert(h.edges_m()[1].2@ == h.states_m()[4int]);
                }
            }
        }
    }
    r
}

/// A handler for Hillstone SG devices.
pub fn hillstone() -> (r: Result<DeviceHandler, ConnectError>)
    ensures
        r matches Ok(h) ==> h.wf() && h.endpoints_declared() && h.state_index_m() == 0,
        r matches Ok(h) ==> {
            &&& h.states_m()[3] == lower_seq("Enable"@)
            &&& h.states_m()[4int] == lower_seq("Config"@)
            &&& h.edges_m().len() == 2
            &&& edge_is(
                h.edges_m()[0],
                lower_seq("Enable"@),
                "config"@,
                lower_seq("Config"@),
                false,
            )
            &&& edge_is(h.edges_m()[1], lower_seq("Config"@), "exit"@, lower_seq("Enable"@), true)
        },
        r matches Err(e) ==> e is InvalidDeviceHandlerConfig,
{
    let prompt: Vec<(String, Vec<String>)> = vec![
        ("Enable".to_owned(), vec![r"^.+#\s\r{0,1}$".to_owned()]),
        ("Config".to_owned(), vec![r"^.+\(config.*\)\s*#\s\r{0,1}$".to_owned()]),
    ];
    let write: Vec<(String, (bool, String, bool), Vec<String>)> = vec![
        (
            "Save".to_owned(),
            (false, "y".to_owned(), true),
            vec![
                r"Save configuration, are you sure\? \[y\]\/n: ".to_owned(),
                r"Save configuration for all VSYS, are you sure\? \[y\]\/n: ".to_owned(),
                r"Backup start configuration file, are you sure\? y\/\[n\]: ".to_owned(),
                r"Backup all start configuration files, are you sure\? y\/\[n\]: ".to_owned(),
            ],
        ),
    ];
    let more_regex: Vec<String> = vec![r"\s*--More--\s*".to_owned()];
    let error_regex: Vec<String> = vec![
        r".+\^.+".to_owned(),
        r".+%.+".to_owned(),
        r".+doesn't exist.+".to_owned(),
        r".+does not exist.+".to_owned(),
        r"Object group with given name exists with different type.".to_owned(),
    ];
    let edges: Vec<Edge> = vec![
        ("Enable".to_owned(), "config".to_owned(), "Config".to_owned(), false, false),
        ("Config".to_owned(), "exit".to_owned(), "Enable".to_owned(), true, false),
    ];
    let ignore_errors: Vec<String> = vec![
        r"Error: Schedule entity (.+) is not found".to_owned(),
        r"Error: Failed to find this service".to_owned(),
        r"Error: Rule (\d+) is not found$".to_owned(),
        r"Error: This service already exists".to_owned(),
        r"Error: Rule is already configured with schedule (.+)".to_owned(),
        r"Error: Rule is not configured with schedule (.+)".to_owned(),
        r"Error: This entity is already added".to_owned(),
        r"Error: This entity already exists".to_owned(),
        r"Error: Cannot find this service entity".to_owned(),
        r"Error: Address entry (.+) has no member (.+)".to_owned(),
        r"Error: Address (.+) is not found".to_owned(),
        r"Error: Deleting a service not configured".to_owned(),
    ];
    let ghost promptv = prompt@;
    let ghost edgesv = edges@;
    let r = DeviceHandler::new(
        prompt,
        Vec::new(),
        write,
        more_regex,
        error_regex,
        edges,
        ignore_errors,
        Vec::new(),
    );
    proof {
        if r is Ok {
            let h = r->Ok_0;
            assert(h.states_m()[3] == lower_seq(promptv[0].0@));
            assert(h.states_m()[4] == lower_seq(promptv[1].0@));
            assert forall|k: int|
                0 <= k < h.edges_m().len() implies h.declared(
                (#[trigger] h.edges_m()[k]).0@,
            ) && h.declared(h.edges_m()[k].2@) by {
                assert(h.edges_m()[k].0@ == lower_seq(edgesv[k].0@));
                assert(h.edges_m()[k].2@ == lower_seq(edgesv[k].2@));
                if k == 0 {
                    assert(h.edges_m()[0].0@ == h.states_m()[3]);
                    assert(h.edges_m()[0].2@ == h.states_m()[4int]);
                } else {
                    assert(h.edges_m()[1].0@ == h.states_m()[4int]);
                    assert(h.edges_m()[1].2@ == h.states_m()[3]);
                }
            }
        }
    }
    r
}

/// A handler for Juniper JunOS devices.
pub fn juniper() -> (r: Result<DeviceHandler, ConnectError>)
    ensures
        r matches Ok(h) ==> h.wf() && h.endpoints_declared() && h.state_index_m() == 0,
        r matches Ok(h) ==> {
            &&& h.states_m()[3] == lower_seq("Config"@)
            &&& h.states_m()[4int] == lower_seq("Enable"@)
            &&& h.edges_m().len() == 2
            &&& edge_is(
                h.edges_m()[0],
                lower_seq("Enable"@),
                "system-view"@,
                lower_seq("Config"@),
                false,
            )
            &&& edge_is(h.edges_m()[1], lower_seq("Config"@), "exit"@, lower_seq("Enable"@), true)
        },
        r matches Err(e) ==> e is InvalidDeviceHandlerConfig,
{
    let prompt: Vec<(String, Vec<String>)> = vec![
        ("Config".to_owned(), vec![r"^\S+@\S+#\s*$".to_owned()]),
        ("Enable".to_owned(), vec![r"^\S+@\S+>\s*$".to_owned()]),
    ];
    let write: Vec<(String, (bool, String, bool), Vec<String>)> = vec![
        (
            "Save".to_owned(),
            (false, "yes".to_owned(), true),
            vec![r"Exit with uncommitted changes\? \[yes,no\] \(yes\) ".to_owned()],
        ),
    ];
    let more_regex: Vec<String> = vec![r"---\(more.*\)---".to_owned()];
    let error_regex: Vec<String> = vec![
        r".*unknown command.*".to_owned(),
        r"syntax error.*".to_owned(),
        r"error:.+".to_owned(),
        r".+not found.*".to_owned(),
        r"invalid value .+".to_owned(),
        r"invalid ip address .+".to_owned(),
        r".*invalid prefix length .+".to_owned(),
        r"prefix length \S+ is larger than \d+ .+".to_owned(),
        r"number: \S+: Value must be a number from 0 to 255 at \S+".to_owned(),
        r"\s+\^$".to_owned(),
    ];
    let edges: Vec<Edge> = vec![
        ("Enable".to_owned(), "system-view".to_owned(), "Config".to_owned(), false, false),
        ("Config".to_owned(), "exit".to_owned(), "Enable".to_owned(), true, false),
    ];
    let ignore_errors: Vec<String> = vec![
        r"warning: statement not found".to_owned(),
        r"warning: element \S+ not found".to_owned(),
    ];
    let ghost promptv = prompt@;
    let ghost edgesv = edges@;
    let r = DeviceHandler::new(
        prompt,
        Vec::new(),
        write,
        more_regex,
        error_regex,
        edges,
        ignore_errors,
        Vec::new(),
    );
    proof {
        if r is Ok {
            let h = r->Ok_0;
            assert(h.states_m()[3] == lower_seq(promptv[0].0@));
            assert(h.states_m()[4] == lower_seq(promptv[1].0@));
            assert forall|k: int|
                0 <= k < h.edges_m().len() implies h.declared(
                (#[trigger] h.edges_m()[k]).0@,
            ) && h.declared(h.edges_m()[k].2@) by {
                assert(h.edges_m()[k].0@ == lower_seq(edgesv[k].0@));
                assert(h.edges_m()[k].2@ == lower_seq(edgesv[k].2@));
                if k == 0 {
                    assert(h.edges_m()[0].0@ == h.states_m()[4int]);
                    assert(h.edges_m()[0].2@ == h.states_m()[3]);
                } else {
                    assert(h.edges_m()[1].0@ == h.states_m()[3]);
                    assert(h.edges_m()[1].2@ == h.states_m()[4int]);
                }
            }
        }
    }
    r
}

/// A handler for Array Networks APV devices, including the VSite sys
/// context with its capture of the virtual-site name.
pub fn array() -> (r: Result<DeviceHandler, ConnectError>)
    ensures
        r matches Ok(h) ==> h.wf() && h.endpoints_declared() && h.state_index_m() == 0,
        r matches Ok(h) ==> {
            &&& h.states_m()[3] == lower_seq("Login"@)
            &&& h.states_m()[4int] == lower_seq("Enable"@)
            &&& h.states_m()[5] == lower_seq("Config"@)
            &&& h.states_m()[6] == lower_seq("VSiteConfig"@)
            &&& h.states_m()[7] == lower_seq("VSiteEnable"@)
            &&& h.edges_m().len() == 8
            &&& edge_is(h.edges_m()[0], lower_seq("Login"@), "enable"@, lower_seq("Enable"@), false)
            &&& edge_is(
                h.edges_m()[1],
                lower_seq("Enable"@),
                "configure terminal"@,
                lower_seq("Config"@),
                false,
            )
            &&& edge_is(h.edges_m()[2], lower_seq("Config"@), "exit"@, lower_seq("Enable"@), true)
            &&& edge_is(h.edges_m()[3], lower_seq("Enable"@), "exit"@, lower_seq("Login"@), true)
            &&& h.edges_m()[4int].0@ == lower_seq("Enable"@) && h.edges_m()[4int].1@
                == "switch {}"@ && h.edges_m()[4int].2@ == lower_seq("VSiteEnable"@)
                && !h.edges_m()[4int].3 && h.edges_m()[4int].4
            &&& edge_is(
                h.edges_m()[5],
                lower_seq("VSiteEnable"@),
                "configure terminal"@,
                lower_seq("VSiteConfig"@),
                false,
            )
            &&& edge_is(
                h.edges_m()[6],
                lower_seq("VSiteConfig"@),
                "exit"@,
                lower_seq("VSiteEnable"@),
                true,
            )
            &&& edge_is(
                h.edges_m()[7],
                lower_seq("VSiteEnable"@),
                "exit"@,
                lower_seq("Enable"@),
                true,
            )
            &&& (forall|i: int| h.is_sys_prompt_index(i) <==> 6 <= i <= 7)
        },
        r matches Err(e) ==> e is InvalidDeviceHandlerConfig,
{
    let prompt: Vec<(String, Vec<String>)> = vec![
        ("Login".to_owned(), vec![r"^[^\s<]+>\s*$".to_owned()]),
        ("Enable".to_owned(), vec![r"^[^\s#]+#\s*$".to_owned()]),
        ("Config".to_owned(), vec![r"^\S+\(\S+\)#\s*$".to_owned()]),
    ];
    let prompt_with_sys: Vec<(String, String, String)> = vec![
        ("VSiteConfig".to_owned(), r"^(?<VS>\S+)\(\S+\)\$\s*$".to_owned(), "VS".to_owned()),
        ("VSiteEnable".to_owned(), r"^(?<VS>\S+)\$\s*$".to_owned(), "VS".to_owned()),
    ];
    let write: Vec<(String, (bool, String, bool), Vec<String>)> = vec![
        (
            "EnablePassword".to_owned(),
            (true, "EnablePassword".to_owned(), true),
            vec![r"^\x00*\rEnable password:".to_owned()],
        ),
    ];
    let more_regex: Vec<String> = vec![r"\s*--More--\s*".to_owned()];
    let error_regex: Vec<String> = vec![
        r"Virtual site .+ is not configured".to_owned(),
        r"Access denied!".to_owned(),
        r"Cannot find the group name '.+'\.".to_owned(),
        r"Netpool .+ does not exist".to_owned(),
        r"Resource group .+ does not exist".to_owned(),
        r"Cannot find the resource group '.+'\.".to_owned(),
        r"This resource group name has been used, please give another one\.".to_owned(),
        r"This resource .+ doesn't exist or hasn't assigned to target .+".to_owned(),
        r"Parse network resource failed: Invalid port format\.".to_owned(),
        r"Parse network resource failed: Invalid ACL format\.".to_owned(),
        r"\^$".to_owned(),
    ];
    let edges: Vec<Edge> = vec![
        ("Login".to_owned(), "enable".to_owned(), "Enable".to_owned(), false, false),
        ("Enable".to_owned(), "configure terminal".to_owned(), "Config".to_owned(), false, false),
        ("Config".to_owned(), "exit".to_owned(), "Enable".to_owned(), true, false),
        ("Enable".to_owned(), "exit".to_owned(), "Login".to_owned(), true, false),
        ("Enable".to_owned(), "switch {}".to_owned(), "VSiteEnable".to_owned(), false, true),
        (
            "VSiteEnable".to_owned(),
            "configure terminal".to_owned(),
            "VSiteConfig".to_owned(),
            false,
            false,
        ),
        ("VSiteConfig".to_owned(), "exit".to_owned(), "VSiteEnable".to_owned(), true, false),
        ("VSiteEnable".to_owned(), "exit".to_owned(), "Enable".to_owned(), true, false),
    ];
    let ghost promptv = prompt@;
    let ghost sysv = prompt_with_sys@;
    let ghost edgesv = edges@;
    let r = DeviceHandler::new(
        prompt,
        prompt_with_sys,
        write,
        more_regex,
        error_regex,
        edges,
        Vec::new(),
        Vec::new(),
    );
    proof {
        if r is Ok {
            let h = r->Ok_0;
            assert(h.states_m()[3] == lower_seq(promptv[0].0@));
            assert(h.states_m()[4int] == lower_seq(promptv[1].0@));
            assert(h.states_m()[5] == lower_seq(promptv[2].0@));
            assert(h.states_m()[6] == lower_seq(sysv[0].0@));
            assert(h.states_m()[7] == lower_seq(sysv[1].0@));
            assert forall|k: int|
                0 <= k < h.edges_m().len() implies h.declared(
                (#[trigger] h.edges_m()[k]).0@,
            ) && h.declared(h.edges_m()[k].2@) by {
                assert(h.edges_m()[k].0@ == lower_seq(edgesv[k].0@));
                assert(h.edges_m()[k].2@ == lower_seq(edgesv[k].2@));
                if k == 0 {
                    assert(h.edges_m()[0].0@ == h.states_m()[3]);
                    assert(h.edges_m()[0].2@ == h.states_m()[4int]);
                } else if k == 1 {
                    assert(h.edges_m()[1].0@ == h.states_m()[4int]);
                    assert(h.edges_m()[1].2@ == h.states_m()[5]);
                } else if k == 2 {
                    assert(h.edges_m()[2].0@ == h.states_m()[5]);
                    assert(h.edges_m()[2].2@ == h.states_m()[4int]);
                } else if k == 3 {
                    assert(h.edges_m()[3].0@ == h.states_m()[4int]);
                    assert(h.edges_m()[3].2@ == h.states_m()[3]);
                } else if k == 4 {
                    assert(h.edges_m()[4int].0@ == h.states_m()[4int]);
                    assert(h.edges_m()[4int].2@ == h.states_m()[7]);
                } else if k == 5 {
                    assert(h.edges_m()[5].0@ == h.states_m()[7]);
                    assert(h.edges_m()[5].2@ == h.states_m()[6]);
                } else if k == 6 {
                    assert(h.edges_m()[6].0@ == h.states_m()[6]);
                    assert(h.edges_m()[6].2@ == h.states_m()[7]);
                } else {
                    assert(h.edges_m()[7].0@ == h.states_m()[7]);
                    assert(h.edges_m()[7].2@ == h.states_m()[4int]);
                }
            }
        }
    }
    r
}

/// Builds a built-in template by name, case-insensitively.
pub fn by_name(name: &str) -> (r: Result<DeviceHandler, ConnectError>)
    ensures
        !is_builtin(lower_seq(name@)) ==> (r matches Err(e) && e is TemplateNotFound),
        r matches Ok(h) ==> h.wf() && h.endpoints_declared() && h.state_index_m() == 0,
        r matches Err(e) ==> e is TemplateNotFound || e is InvalidDeviceHandlerConfig,
{
    let key = ascii_lower(name);
    if crate::device::str_eq(key.as_str(), "cisco") {
        cisco()
    } else if crate::device::str_eq(key.as_str(), "huawei") {
        huawei()
    } else if crate::device::str_eq(key.as_str(), "h3c") {
        h3c()
    } else if crate::device::str_eq(key.as_str(), "hillstone") {
        hillstone()
    } else if crate::device::str_eq(key.as_str(), "juniper") {
        juniper()
    } else if crate::device::str_eq(key.as_str(), "array") {
        array()
    } else {
        Err(ConnectError::TemplateNotFound(name.to_owned()))
    }
}

/// Builds a template and returns its state-machine diagnostics.  Every
/// built-in template's edges only name declared states, so the missing
/// endpoint lists are always empty.
pub fn diagnose_template(name: &str) -> (r: Result<StateMachineDiagnostics, ConnectError>)
    ensures
        !is_builtin(lower_seq(name@)) ==> (r matches Err(e) && e is TemplateNotFound),
        r matches Ok(d) ==> d.missing_edge_sources@.len() == 0 && d.missing_edge_targets@.len()
            == 0,
        r matches Err(e) ==> e is TemplateNotFound || e is InvalidDeviceHandlerConfig,
{
    let handler = match by_name(name) {
        Ok(h) => h,
        Err(e) => {
            return Err(e);
        },
    };
    let d = handler.diagnose_state_machine();
    proof {
        if d.missing_edge_sources@.len() != 0 {
            assert(has_str(d.missing_edge_sources@, (d.missing_edge_sources@[0])@));
            assert(false);
        }
        if d.missing_edge_targets@.len() != 0 {
            assert(has_str(d.missing_edge_targets@, (d.missing_edge_targets@[0])@));
            assert(false);
        }
    }
    Ok(d)
}

} // verus!

verus! {

/// One string list as a JSON array.
fn strings_to_json(v: &Vec<String>) -> (r: crate::json::Json)
    ensures
        r is JArr,
{
    let mut items: Vec<crate::json::Json> = Vec::new();
    let mut i: usize = 0;
    while i < v.len()
        invariant
            i <= v@.len(),
        decreases v@.len() - i,
    {
        items.push(crate::json::Json::JStr(v[i].clone()));
        i += 1;
    }
    crate::json::Json::JArr(items)
}

/// A diagnostics report as a JSON object.
fn diagnostics_to_json(d: &StateMachineDiagnostics) -> (r: crate::json::Json)
    ensures
        r is JObj,
{
    let mut fields: Vec<(String, crate::json::Json)> = Vec::new();
    fields.push(
        ("total_states".to_owned(), crate::json::Json::JNum(d.total_states as u128)),
    );
    fields.push(("graph_states".to_owned(), strings_to_json(&d.graph_states)));
    fields.push(("entry_states".to_owned(), strings_to_json(&d.entry_states)));
    fields.push(
        ("missing_edge_sources".to_owned(), strings_to_json(&d.missing_edge_sources)),
    );
    fields.push(
        ("missing_edge_targets".to_owned(), strings_to_json(&d.missing_edge_targets)),
    );
    fields.push(
        ("unreachable_states".to_owned(), strings_to_json(&d.unreachable_states)),
    );
    fields.push(("dead_end_states".to_owned(), strings_to_json(&d.dead_end_states)));
    fields.push(
        (
            "duplicate_prompt_patterns".to_owned(),
            strings_to_json(&d.duplicate_prompt_patterns),
        ),
    );
    fields.push(
        (
            "potentially_ambiguous_prompt_states".to_owned(),
            strings_to_json(&d.potentially_ambiguous_prompt_states),
        ),
    );
    fields.push(
        ("self_loop_only_states".to_owned(), strings_to_json(&d.self_loop_only_states)),
    );
    crate::json::Json::JObj(fields)
}

/// Builds a template by name and exports its diagnostics as JSON text.
pub fn diagnose_template_json(name: &str) -> (r: Result<String, ConnectError>)
    ensures
        !is_builtin(lower_seq(name@)) ==> (r matches Err(e) && e is TemplateNotFound),
        r matches Err(e) ==> e is TemplateNotFound || e is InvalidDeviceHandlerConfig,
{
    let report = match diagnose_template(name) {
        Ok(d) => d,
        Err(e) => {
            return Err(e);
        },
    };
    let j = diagnostics_to_json(&report);
    Ok(crate::json::encode_json(&j))
}

/// Exports diagnostics for every built-in template as one JSON object
/// keyed by template name.
pub fn diagnose_all_templates_json() -> (r: Result<String, ConnectError>)
    ensures
        r matches Err(e) ==> e is InvalidDeviceHandlerConfig,
{
    let names = available_templates();
    let mut fields: Vec<(String, crate::json::Json)> = Vec::new();
    let mut i: usize = 0;
    while i < names.len()
        invariant
            i <= names@.len(),
            names@.len() == 6,
            forall|j: int| 0 <= j < 6 ==> is_builtin(#[trigger] (names@[j])@),
        decreases names@.len() - i,
    {
        let report = match diagnose_template(names[i].as_str()) {
            Ok(d) => d,
            Err(e) => {
                return Err(
                    ConnectError::InvalidDeviceHandlerConfig(
                        "template diagnostics failed".to_owned(),
                    ),
                );
            },
        };
        fields.push((names[i].clone(), diagnostics_to_json(&report)));
        i += 1;
    }
    let j = crate::json::Json::JObj(fields);
    Ok(crate::json::encode_json(&j))
}

} // verus!
