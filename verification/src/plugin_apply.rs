//! How a base plugin answers a request to apply a state: which parts of a
//! legacy state go to which task, and the answer built from the tasks' outcomes.
use vstd::prelude::*;
use crate::json::Json;
use crate::json_text::{json_error_text, json_text_value, read_json};
use crate::json_access::{get, get_in, jget, jget_in};
use crate::provisioning::TaskChange;
use crate::tasks::{change_view, changes_view};
use crate::files::ChangeV;

verus! {

/// A plugin's answer to a request to apply a state.
#[derive(Debug)]
pub struct PluginApplyResponse {
    /// Whether every step succeeded.
    pub success: bool,
    /// The failing step's message; empty on success.
    pub error: String,
    /// The changes of all steps, in order; none on failure.
    pub changes: Vec<TaskChange>,
}

/// The model of one step's outcome: its error prefix and its changes or message.
pub open spec fn steps_view(
    steps: Seq<(String, Result<Vec<TaskChange>, String>)>,
) -> Seq<(Seq<char>, Result<Seq<ChangeV>, Seq<char>>)> {
    Seq::new(
        steps.len(),
        |i: int|
            (
                steps[i].0@,
                match steps[i].1 {
                    Ok(c) => Ok(changes_view(c@)),
                    Err(e) => Err(e@),
                },
            ),
    )
}

/// The position of the first step that failed.
pub open spec fn first_failure(s: Seq<(Seq<char>, Result<Seq<ChangeV>, Seq<char>>)>) -> Option<int>
    decreases s.len(),
{
    if s.len() == 0 {
        None
    } else {
        match first_failure(s.drop_last()) {
            Some(i) => Some(i),
            None => if s.last().1 is Err {
                Some(s.len() - 1)
            } else {
                None
            },
        }
    }
}

/// The changes of the steps, in order.
pub open spec fn all_changes(s: Seq<(Seq<char>, Result<Seq<ChangeV>, Seq<char>>)>) -> Seq<
    ChangeV,
>
    decreases s.len(),
{
    if s.len() == 0 {
        Seq::empty()
    } else {
        all_changes(s.drop_last()) + match s.last().1 {
            Ok(c) => c,
            Err(_) => Seq::empty(),
        }
    }
}

/// The answer built from the steps' outcomes, in the order they ran: the first
/// failure, its prefix before its message, with no change; else success with the
/// changes of every step.
pub fn apply_response(steps: &Vec<(String, Result<Vec<TaskChange>, String>)>) -> (r: PluginApplyResponse)
    ensures
        match first_failure(steps_view(steps@)) {
            Some(i) => !r.success && r.changes@.len() == 0 && r.error@ == steps_view(steps@)[i].0 + steps_view(
                steps@,
            )[i].1->Err_0,
            None => r.success && r.error@ == Seq::<char>::empty() && changes_view(r.changes@) == all_changes(
                steps_view(steps@),
            ),
        },
{
    let ghost sv = steps_view(steps@);
    let mut changes: Vec<TaskChange> = Vec::new();
    let mut k: usize = 0;
    assert(changes_view(changes@) =~= all_changes(sv.subrange(0, 0)));
    while k < steps.len()
        invariant
            k <= steps@.len(),
            sv == steps_view(steps@),
            first_failure(sv.subrange(0, k as int)) is None,
            changes_view(changes@) == all_changes(sv.subrange(0, k as int)),
        decreases steps.len() - k,
    {
        proof {
            assert(sv.subrange(0, k as int + 1).drop_last() =~= sv.subrange(0, k as int));
            assert(sv.subrange(0, k as int + 1).last() == sv[k as int]);
        }
        match &steps[k].1 {
            Ok(c) => {
                let ghost before = changes_view(changes@);
                let mut j: usize = 0;
                while j < c.len()
                    invariant
                        j <= c@.len(),
                        changes_view(changes@) == before + changes_view(c@).subrange(0, j as int),
                    decreases c.len() - j,
                {
                    let x = copy_change(&c[j]);
                    let ghost mid = changes_view(changes@);
                    changes.push(x);
                    assert(changes_view(changes@) =~= mid.push(change_view(c@[j as int])));
                    assert(changes_view(c@).subrange(0, j as int + 1) =~= changes_view(c@).subrange(0, j as int).push(
                        change_view(c@[j as int]),
                    ));
                    j = j + 1;
                }
                assert(changes_view(c@).subrange(0, c@.len() as int) =~= changes_view(c@));
            },
            Err(e) => {
                let mut msg = crate::text::chars_of(steps[k].0.as_str());
                crate::text::append_chars(&mut msg, &crate::text::chars_of(e.as_str()));
                proof {
                    lemma_first_failure_at(sv, k as int);
                }
                let none: Vec<TaskChange> = Vec::new();
                return PluginApplyResponse { success: false, error: crate::text::string_from_chars(&msg), changes: none };
            },
        }
        k = k + 1;
    }
    assert(sv.subrange(0, k as int) =~= sv);
    PluginApplyResponse { success: true, error: String::new(), changes }
}

/// The answer to a state text that is not JSON: failure, with `detail` (what
/// the JSON reader said) after `invalid state JSON: `, and no change.
pub fn invalid_state_response(detail: &str) -> (r: PluginApplyResponse)
    ensures
        !r.success,
        r.error@ == "invalid state JSON: "@ + detail@,
        r.changes@.len() == 0,
{
    PluginApplyResponse {
        success: false,
        error: crate::text::message("invalid state JSON: ", &crate::text::chars_of(detail)),
        changes: Vec::new(),
    }
}

/// Reads the desired state of a request: the JSON value of `state`, or, where
/// it is not JSON, the answer that refuses it with the reader's message.
pub fn desired_state(state: &str) -> (r: Result<Json, PluginApplyResponse>)
    ensures
        match json_text_value(state@) {
            Some(v) => r matches Ok(j) && j@ == v,
            None => r matches Err(a) && !a.success && a.error@ == "invalid state JSON: "@ + json_error_text(state@)
                && a.changes@.len() == 0,
        },
{
    match read_json(state) {
        Ok(j) => Ok(j),
        Err(e) => Err(invalid_state_response(&e)),
    }
}

/// A copy of a change.
fn copy_change(c: &TaskChange) -> (r: TaskChange)
    ensures
        change_view(r) == change_view(*c),
{
    TaskChange {
        change_type: c.change_type,
        path: c.path.clone(),
        old_value: match &c.old_value {
            Some(v) => Some(v.deep_copy()),
            None => None,
        },
        new_value: match &c.new_value {
            Some(v) => Some(v.deep_copy()),
            None => None,
        },
        verbose: c.verbose,
    }
}

proof fn lemma_first_failure_at(s: Seq<(Seq<char>, Result<Seq<ChangeV>, Seq<char>>)>, k: int)
    requires
        0 <= k < s.len(),
        first_failure(s.subrange(0, k)) is None,
        s[k].1 is Err,
    ensures
        first_failure(s) == Some(k),
    decreases s.len(),
{
    if k < s.len() - 1 {
        assert(s.drop_last().subrange(0, k) =~= s.subrange(0, k));
        assert(s.drop_last()[k] == s[k]);
        lemma_first_failure_at(s.drop_last(), k);
    } else {
        assert(s.drop_last() =~= s.subrange(0, k));
    }
}

/// The model of a value that may be absent.
pub open spec fn opt_json(o: Option<Json>) -> Option<crate::json::JsonV> {
    match o {
        Some(x) => Some(x@),
        None => None,
    }
}

/// The parts of a legacy state that go to the tasks: `network.settings` for the
/// network settings, and `files` for the file task, each where present.
pub fn legacy_sections(desired: &Json) -> (r: (Option<Json>, Option<Json>))
    ensures
        opt_json(r.0) == jget_in(jget(desired@, "network"@), "settings"@),
        opt_json(r.1) == jget(desired@, "files"@),
{
    let settings = match get_in(get(desired, "network"), "settings") {
        Some(s) => Some(s.deep_copy()),
        None => None,
    };
    let files = match get(desired, "files") {
        Some(f) => Some(f.deep_copy()),
        None => None,
    };
    (settings, files)
}

} // verus!
