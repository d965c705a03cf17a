//! Bringing peers up and down with swanctl, and starting or stopping the
//! StrongSwan service with systemctl.
//!
//! A peer request is a small state machine: it starts from the request, asks for
//! one run of swanctl at a time, and ends in a reply. The caller runs what is asked
//! and hands back how the run ended.
use vstd::prelude::*;

use crate::i18n::{
    CODE_INTERNAL_ERROR, CODE_OK, CODE_PEER_CHILD_FAILED, CODE_PEER_IKE_FAILED,
    CODE_PEER_NAME_REQUIRED, CODE_PEER_PHASE_INVALID,
};
use crate::models::owned;
use crate::text::{append_str, chars_eq_str, chars_to_string, str_chars, trim, trim_str};
use crate::types::ServiceControlResponse;

verus! {

// ───────────────────────────── peers ─────────────────────────────

/// Where a peer request stands: waiting for the IKE run, the CHILD run or the
/// terminate run, or answered.
#[derive(Debug, Clone, Copy, PartialEq, Eq, Structural)]
pub enum PeerStage {
    Ike,
    Child,
    Down,
    Finished,
}

/// A peer request under way: the trimmed peer name, the direction and the phase asked.
#[derive(Debug)]
pub struct PeerControl {
    pub peer_name: String,
    pub bring_up: bool,
    pub phase: Option<u8>,
    pub stage: PeerStage,
}

/// One run of `swanctl` with `args`, after a pause, within a time limit.
#[derive(Debug)]
pub struct SwanctlRun {
    pub pause_ms: u64,
    pub args: Vec<String>,
    pub timeout_secs: u64,
}

/// The answer to a peer request: its HTTP status, its response code, whether it
/// succeeded, and the detail added after the code's message.
#[derive(Debug)]
pub struct PeerReply {
    pub status: u16,
    pub code: i64,
    pub success: bool,
    pub detail: Option<String>,
}

#[derive(Debug)]
pub enum PeerAction {
    Run(SwanctlRun),
    Reply(PeerReply),
}

/// How a run of swanctl ended: the program exited (with its code, if any, and its
/// error output), or it could not be run (with a description of why).
#[derive(Debug)]
pub enum CommandOutcome {
    Exited { status_code: Option<i32>, stderr: String },
    Failed { error: String },
}

/// What a peer action is, as values.
pub enum PeerActionModel {
    Run { pause_ms: u64, args: Seq<Seq<char>>, timeout_secs: u64 },
    Reply { status: u16, code: i64, success: bool, detail: Option<Seq<char>> },
}

impl View for PeerAction {
    type V = PeerActionModel;

    open spec fn view(&self) -> PeerActionModel {
        match self {
            PeerAction::Run(r) => PeerActionModel::Run {
                pause_ms: r.pause_ms,
                args: r.args@.map_values(|s: String| s@),
                timeout_secs: r.timeout_secs,
            },
            PeerAction::Reply(p) => PeerActionModel::Reply {
                status: p.status,
                code: p.code,
                success: p.success,
                detail: match p.detail {
                    Some(d) => Some(d@),
                    None => None,
                },
            },
        }
    }
}

pub open spec fn run_model(pause_ms: u64, verb: Seq<char>, which: Seq<char>, name: Seq<char>) -> PeerActionModel {
    PeerActionModel::Run { pause_ms, args: seq![verb, which, name], timeout_secs: 20 }
}

pub open spec fn reply_model(status: u16, code: i64, success: bool, detail: Option<Seq<char>>) -> PeerActionModel {
    PeerActionModel::Reply { status, code, success, detail }
}

/// Whether the request brings the IKE SA up (no phase, or phase 1).
pub open spec fn runs_ike(phase: Option<u8>) -> bool {
    phase != Some(2u8)
}

/// Whether the request brings the CHILD SA up (no phase, or phase 2).
pub open spec fn runs_child(phase: Option<u8>) -> bool {
    phase != Some(1u8)
}

/// How a peer request starts: refused for a blank name or a phase other than 1
/// or 2; otherwise the first swanctl run (`--initiate` of the IKE SA, or of the
/// CHILD SA alone for phase 2; `--terminate` of the IKE SA, or of the CHILD SA for
/// phase 2).
pub open spec fn start_model(name: Seq<char>, bring_up: bool, phase: Option<u8>) -> (PeerStage, PeerActionModel) {
    if name.len() == 0 {
        (PeerStage::Finished, reply_model(400, CODE_PEER_NAME_REQUIRED, false, None))
    } else if phase.is_some() && phase->0 != 1 && phase->0 != 2 {
        (PeerStage::Finished, reply_model(400, CODE_PEER_PHASE_INVALID, false, None))
    } else if bring_up {
        if runs_ike(phase) {
            (PeerStage::Ike, run_model(0, "--initiate"@, "--ike"@, name))
        } else {
            (PeerStage::Child, run_model(0, "--initiate"@, "--child"@, name))
        }
    } else if phase == Some(2u8) {
        (PeerStage::Down, run_model(0, "--terminate"@, "--child"@, name))
    } else {
        (PeerStage::Down, run_model(0, "--terminate"@, "--ike"@, name))
    }
}

/// The detail added to a failure: the error output when there is any.
pub open spec fn stderr_detail(stderr: Seq<char>) -> Option<Seq<char>> {
    if stderr.len() == 0 {
        None
    } else {
        Some(stderr)
    }
}

/// What follows a finished run: a program that could not run ends the request
/// with an internal error; an IKE run that exited with 0 goes on to the CHILD run
/// (after half a second) when that is asked; any run that exited otherwise ends it
/// with the phase's failure code (CHILD's for a terminate); the last run that
/// exited with 0 ends it successfully.
pub open spec fn step_model(
    stage: PeerStage,
    name: Seq<char>,
    phase: Option<u8>,
    exited: bool,
    status_code: Option<i32>,
    text: Seq<char>,
) -> (PeerStage, PeerActionModel) {
    if !exited {
        (PeerStage::Finished, reply_model(500, CODE_INTERNAL_ERROR, false, Some(text)))
    } else if status_code != Some(0i32) {
        let code = if stage == PeerStage::Ike {
            CODE_PEER_IKE_FAILED
        } else {
            CODE_PEER_CHILD_FAILED
        };
        (PeerStage::Finished, reply_model(400, code, false, stderr_detail(text)))
    } else if stage == PeerStage::Ike && runs_child(phase) {
        (PeerStage::Child, run_model(500, "--initiate"@, "--child"@, name))
    } else {
        (PeerStage::Finished, reply_model(200, CODE_OK, true, None))
    }
}

pub open spec fn outcome_exited(o: CommandOutcome) -> bool {
    o is Exited
}

pub open spec fn outcome_code(o: CommandOutcome) -> Option<i32> {
    match o {
        CommandOutcome::Exited { status_code, .. } => status_code,
        CommandOutcome::Failed { .. } => None,
    }
}

pub open spec fn outcome_text(o: CommandOutcome) -> Seq<char> {
    match o {
        CommandOutcome::Exited { stderr, .. } => stderr@,
        CommandOutcome::Failed { error } => error@,
    }
}

fn swanctl_run(pause_ms: u64, verb: &str, which: &str, name: &String) -> (r: PeerAction)
    ensures
        r@ == run_model(pause_ms, verb@, which@, name@),
{
    let mut args: Vec<String> = Vec::new();
    args.push(owned(verb));
    args.push(owned(which));
    args.push(name.clone());
    let r = PeerAction::Run(SwanctlRun { pause_ms, args, timeout_secs: 20 });
    assert(args@.map_values(|s: String| s@) =~= seq![verb@, which@, name@]);
    r
}

fn reply(status: u16, code: i64, success: bool, detail: Option<String>) -> (r: PeerAction)
    ensures
        r@ == reply_model(
            status,
            code,
            success,
            match detail {
                Some(d) => Some(d@),
                None => None,
            },
        ),
{
    PeerAction::Reply(PeerReply { status, code, success, detail })
}

/// Starts a peer request (see `start_model`).
pub fn peer_control_start(peer_name: &str, bring_up: bool, phase: Option<u8>) -> (r: (PeerControl, PeerAction))
    ensures
        r.0.peer_name@ == trim(peer_name@),
        r.0.bring_up == bring_up,
        r.0.phase == phase,
        (r.0.stage, r.1@) == start_model(trim(peer_name@), bring_up, phase),
        r.1 is Run <==> r.0.stage != PeerStage::Finished,
{
    let name = chars_to_string(&trim_str(peer_name));
    let (stage, action) = if name.as_str().is_empty() {
        (PeerStage::Finished, reply(400, CODE_PEER_NAME_REQUIRED, false, None))
    } else {
        match phase {
            Some(p) if p != 1 && p != 2 => (PeerStage::Finished, reply(400, CODE_PEER_PHASE_INVALID, false, None)),
            _ => if bring_up {
                if phase != Some(2u8) {
                    (PeerStage::Ike, swanctl_run(0, "--initiate", "--ike", &name))
                } else {
                    (PeerStage::Child, swanctl_run(0, "--initiate", "--child", &name))
                }
            } else if phase == Some(2u8) {
                (PeerStage::Down, swanctl_run(0, "--terminate", "--child", &name))
            } else {
                (PeerStage::Down, swanctl_run(0, "--terminate", "--ike", &name))
            },
        }
    };
    (PeerControl { peer_name: name, bring_up, phase, stage }, action)
}

/// Goes on with a peer request once the run it asked for has ended (see `step_model`).
pub fn peer_control_step(ctl: &PeerControl, outcome: CommandOutcome) -> (r: (PeerControl, PeerAction))
    requires
        ctl.stage != PeerStage::Finished,
    ensures
        r.0.peer_name@ == ctl.peer_name@,
        r.0.bring_up == ctl.bring_up,
        r.0.phase == ctl.phase,
        (r.0.stage, r.1@) == step_model(
            ctl.stage,
            ctl.peer_name@,
            ctl.phase,
            outcome_exited(outcome),
            outcome_code(outcome),
            outcome_text(outcome),
        ),
        r.1 is Run <==> r.0.stage != PeerStage::Finished,
{
    let (stage, action) = match outcome {
        CommandOutcome::Failed { error } => (PeerStage::Finished, reply(500, CODE_INTERNAL_ERROR, false, Some(error))),
        CommandOutcome::Exited { status_code, stderr } => {
            if status_code != Some(0i32) {
                let code = if ctl.stage == PeerStage::Ike {
                    CODE_PEER_IKE_FAILED
                } else {
                    CODE_PEER_CHILD_FAILED
                };
                let empty = stderr.as_str().is_empty();
                let detail = if empty {
                    None
                } else {
                    Some(stderr)
                };
                (PeerStage::Finished, reply(400, code, false, detail))
            } else if ctl.stage == PeerStage::Ike && ctl.phase != Some(1u8) {
                (PeerStage::Child, swanctl_run(500, "--initiate", "--child", &ctl.peer_name))
            } else {
                (PeerStage::Finished, reply(200, CODE_OK, true, None))
            }
        },
    };
    (PeerControl { peer_name: ctl.peer_name.clone(), bring_up: ctl.bring_up, phase: ctl.phase, stage }, action)
}

/// The message of a peer reply: the code's message, then `: ` and the detail if any.
pub fn peer_reply_message(base: &str, detail: &Option<String>) -> (r: String)
    ensures
        r@ == match detail {
            Some(d) => base@ + ": "@ + d@,
            None => base@,
        },
{
    match detail {
        Some(d) => {
            let mut v = str_chars(base);
            append_str(&mut v, ": ");
            append_str(&mut v, d.as_str());
            chars_to_string(&v)
        },
        None => owned(base),
    }
}

/// The action named in a peer reply.
pub fn peer_action_name(bring_up: bool) -> (r: &'static str)
    ensures
        r@ == if bring_up {
            "up"@
        } else {
            "down"@
        },
{
    if bring_up {
        "up"
    } else {
        "down"
    }
}


// ───────────────────────────── the StrongSwan service ─────────────────────────────

/// The systemd units under which StrongSwan may be installed, in the order tried.
pub open spec fn unit_candidates() -> Seq<Seq<char>> {
    seq!["strongswan"@, "strongswan-starter"@, "charon-systemd"@]
}

pub fn strongswan_unit_candidates() -> (r: Vec<String>)
    ensures
        r@.map_values(|s: String| s@) == unit_candidates(),
{
    let mut r: Vec<String> = Vec::new();
    r.push(owned("strongswan"));
    r.push(owned("strongswan-starter"));
    r.push(owned("charon-systemd"));
    assert(r@.map_values(|s: String| s@) =~= unit_candidates());
    r
}

/// Whether `systemctl show <unit> --property LoadState --value` says that the unit
/// exists: it succeeded and printed a state other than `not-found`.
pub fn unit_is_loaded(status_ok: bool, stdout: &str) -> (b: bool)
    ensures
        b == (status_ok && trim(stdout@).len() > 0 && trim(stdout@) != "not-found"@),
{
    if !status_ok {
        return false;
    }
    let t = trim_str(stdout);
    t.len() > 0 && !chars_eq_str(&t, "not-found")
}

pub open spec fn service_reply_is(
    r: (u16, ServiceControlResponse),
    status: u16,
    service: Seq<char>,
    action: Seq<char>,
    success: bool,
    message: Seq<char>,
) -> bool {
    &&& r.0 == status
    &&& r.1.service_name@ == service
    &&& r.1.action@ == action
    &&& r.1.success == success
    &&& r.1.message@ == message
}

fn service_reply(status: u16, service: String, action: &str, success: bool, message: String) -> (r: (u16, ServiceControlResponse))
    ensures
        service_reply_is(r, status, service@, action@, success, message@),
{
    (status, ServiceControlResponse { service_name: service, action: owned(action), success, message })
}

/// The answer when no unit could be used: none of the candidates exists (400), or
/// looking for them failed with `error` (500).
pub fn unit_missing_reply(action: &str, error: Option<&str>) -> (r: (u16, ServiceControlResponse))
    ensures
        match error {
            None => service_reply_is(
                r,
                400,
                "strongswan"@,
                action@,
                false,
                "No se encontro unidad systemd de StrongSwan (strongswan, strongswan-starter o charon-systemd)"@,
            ),
            Some(e) => service_reply_is(r, 500, "strongswan"@, action@, false, "Error detectando unidad de StrongSwan: "@ + e@),
        },
{
    match error {
        None => service_reply(
            400,
            owned("strongswan"),
            action,
            false,
            owned("No se encontro unidad systemd de StrongSwan (strongswan, strongswan-starter o charon-systemd)"),
        ),
        Some(e) => {
            let mut m = str_chars("Error detectando unidad de StrongSwan: ");
            append_str(&mut m, e);
            service_reply(500, owned("strongswan"), action, false, chars_to_string(&m))
        },
    }
}

/// How `systemctl <action> <unit>` ended: it ran, successfully or not, with its
/// error output; or it could not be run.
#[derive(Debug)]
pub enum SystemctlOutcome {
    Ran { success: bool, stderr: String },
    Failed { error: String },
}

/// The answer once `systemctl <action> <unit>` has ended: success (200); a failure
/// with the trimmed error output, or a generic message when there is none (400);
/// or systemctl could not be run (500).
pub fn systemctl_reply(action: &str, unit: &str, outcome: SystemctlOutcome) -> (r: (u16, ServiceControlResponse))
    ensures
        match outcome {
            SystemctlOutcome::Ran { success: true, .. } => service_reply_is(
                r,
                200,
                unit@,
                action@,
                true,
                "Servicio '"@ + unit@ + "' "@ + action@ + " exitosamente"@,
            ),
            SystemctlOutcome::Ran { success: false, stderr } => service_reply_is(
                r,
                400,
                unit@,
                action@,
                false,
                if trim(stderr@).len() == 0 {
                    "systemctl devolvio error al ejecutar '"@ + action@ + " "@ + unit@ + "'"@
                } else {
                    trim(stderr@)
                },
            ),
            SystemctlOutcome::Failed { error } => service_reply_is(
                r,
                500,
                unit@,
                action@,
                false,
                "No se pudo ejecutar systemctl: "@ + error@,
            ),
        },
{
    match outcome {
        SystemctlOutcome::Ran { success, stderr } => {
            if success {
                let mut m = str_chars("Servicio '");
                append_str(&mut m, unit);
                append_str(&mut m, "' ");
                append_str(&mut m, action);
                append_str(&mut m, " exitosamente");
                service_reply(200, owned(unit), action, true, chars_to_string(&m))
            } else {
                let t = trim_str(stderr.as_str());
                let m = if t.len() == 0 {
                    let mut m = str_chars("systemctl devolvio error al ejecutar '");
                    append_str(&mut m, action);
                    append_str(&mut m, " ");
                    append_str(&mut m, unit);
                    append_str(&mut m, "'");
                    m
                } else {
                    t
                };
                service_reply(400, owned(unit), action, false, chars_to_string(&m))
            }
        },
        SystemctlOutcome::Failed { error } => {
            let mut m = str_chars("No se pudo ejecutar systemctl: ");
            append_str(&mut m, error.as_str());
            service_reply(500, owned(unit), action, false, chars_to_string(&m))
        },
    }
}

} // verus!
