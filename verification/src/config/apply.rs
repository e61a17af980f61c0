//! Flushing the pending-change buffer, as the decisions between the
//! caller's reads, checks and writes: each affected file is edited in
//! memory and checked, and only when every file has passed are the files
//! written and the buffer cleared.
use vstd::prelude::*;
use vstd::string::*;
use crate::config::pending::{apply_changes_to_source, applied, derefs, files_of, for_file, group_by_file};
use crate::config::types::{ConfigError, PendingChange, ValidationResult};

verus! {

/// What the caller does next while pending changes are applied.
#[derive(Debug)]
pub enum ApplyAction {
    /// Read the current text of this file and hand it to
    /// [`ApplyRun::text_read`].
    Read(String),
    /// Check this edited text of the file and hand the result to
    /// [`ApplyRun::checked`].
    Check(String, String),
    /// Write each file's edited text, then clear the buffer.
    WriteAll(Vec<(String, String)>),
    /// Stop with this error; nothing has been written and the buffer stays.
    Fail(ConfigError),
    /// Nothing is pending.
    Done,
}

/// The state of applying the buffered changes: the changes grouped by
/// file, the file being worked on, its edited text while it awaits its
/// check, and the edited texts of the files that passed.
pub struct ApplyRun<'a> {
    pub groups: Vec<(String, Vec<&'a PendingChange>)>,
    pub next: usize,
    pub edited: Option<String>,
    pub ready: Vec<(String, String)>,
    /// The texts read so far, one per file from the first.
    pub texts: Ghost<Seq<Seq<char>>>,
}

/// The changes of a group.
pub open spec fn group_changes(g: (String, Vec<&PendingChange>)) -> Seq<PendingChange> {
    derefs(g.1@)
}

impl<'a> ApplyRun<'a> {
    /// Every file before `next` has passed its check with the edited text
    /// kept in `ready`, made from the text read for it; `edited`, when
    /// present, is the edited text of file `next`.
    pub open spec fn wf(&self) -> bool {
        &&& self.next <= self.groups@.len()
        &&& self.ready@.len() == self.next
        &&& self.texts@.len() == self.next + (if self.edited is Some { 1int } else { 0int })
        &&& forall|i: int| 0 <= i < self.next ==> {
            &&& (#[trigger] self.ready@[i]).0@ == self.groups@[i].0@
            &&& applied(self.texts@[i], group_changes(self.groups@[i]), Ok(self.ready@[i].1))
        }
        &&& self.edited matches Some(m) ==> self.next < self.groups@.len()
            && applied(self.texts@[self.next as int], group_changes(self.groups@[self.next as int]), Ok(m))
    }

    /// The groups are those of `changes`: one per file, in order of first
    /// appearance, each with the changes for that file in order.
    pub open spec fn groups_of(&self, changes: Seq<PendingChange>) -> bool {
        &&& self.groups@.len() == files_of(changes).len()
        &&& forall|k: int| 0 <= k < self.groups@.len() ==> {
            &&& (#[trigger] self.groups@[k]).0@ == files_of(changes)[k]
            &&& group_changes(self.groups@[k]) == for_file(changes, files_of(changes)[k])
        }
    }

    /// Begin applying `changes`: nothing to do when there are none, else
    /// read the first file.
    pub fn start(changes: &'a [PendingChange]) -> (r: (ApplyRun<'a>, ApplyAction))
        ensures
            r.0.wf(),
            r.0.groups_of(changes@),
            r.0.next == 0,
            r.0.edited is None,
            changes@.len() == 0 ==> r.1 is Done,
            changes@.len() > 0 ==> (r.1 matches ApplyAction::Read(f) && f@ == files_of(changes@)[0]),
    {
        let groups = group_by_file(changes);
        proof {
            lemma_files_nonempty(changes@);
        }
        let action = if groups.len() == 0 {
            ApplyAction::Done
        } else {
            ApplyAction::Read(groups[0].0.clone())
        };
        let run = ApplyRun { groups, next: 0, edited: None, ready: Vec::new(), texts: Ghost(Seq::empty()) };
        (run, action)
    }

    /// The current text of the file being worked on was read as `text`:
    /// edit it with its changes (see [`apply_changes_to_source`]) and check
    /// the result, or stop with the editing error.
    pub fn text_read(&mut self, text: &str) -> (r: ApplyAction)
        requires
            old(self).wf(),
            old(self).next < old(self).groups@.len(),
            old(self).edited is None,
        ensures
            final(self).wf(),
            final(self).groups == old(self).groups,
            final(self).next == old(self).next,
            final(self).ready == old(self).ready,
            match r {
                ApplyAction::Check(f, m) => f@ == old(self).groups@[old(self).next as int].0@
                    && final(self).edited == Some(m) && final(self).texts@ == old(self).texts@.push(text@)
                    && applied(text@, group_changes(old(self).groups@[old(self).next as int]), Ok(m)),
                ApplyAction::Fail(e) => applied(text@, group_changes(old(self).groups@[old(self).next as int]), Err(e))
                    && final(self).edited is None && final(self).texts@ == old(self).texts@,
                _ => false,
            },
    {
        let k = self.next;
        match apply_changes_to_source(text, self.groups[k].1.as_slice()) {
            Ok(m) => {
                proof {
                    self.texts@ = self.texts@.push(text@);
                }
                self.edited = Some(m.clone());
                ApplyAction::Check(self.groups[k].0.clone(), m)
            },
            Err(e) => ApplyAction::Fail(e),
        }
    }

    /// The edited text of the file being worked on was checked: a failed
    /// check stops with `ValidationFailed` and its errors; a passed one
    /// moves on to the next file, or, after the last, writes every edited
    /// file.
    pub fn checked(&mut self, result: ValidationResult) -> (r: ApplyAction)
        requires
            old(self).wf(),
            old(self).edited is Some,
        ensures
            final(self).wf(),
            final(self).groups == old(self).groups,
            final(self).edited is None,
            match result {
                ValidationResult::Invalid { errors } => r matches ApplyAction::Fail(ConfigError::ValidationFailed(es))
                    && es == errors && final(self).next == old(self).next && final(self).ready == old(self).ready
                    && final(self).texts@ == old(self).texts@.drop_last(),
                ValidationResult::Valid => {
                    &&& final(self).texts == old(self).texts
                    &&& final(self).next == old(self).next + 1
                    &&& final(self).ready@ == old(self).ready@.push(
                        (old(self).groups@[old(self).next as int].0, old(self).edited.unwrap()),
                    )
                    &&& if final(self).next == final(self).groups@.len() {
                        r matches ApplyAction::WriteAll(ws) && ws@ == final(self).ready@
                    } else {
                        r matches ApplyAction::Read(f) && f@ == final(self).groups@[final(self).next as int].0@
                    }
                },
            },
    {
        let ghost n0 = self.next;
        let ghost g0 = self.groups@.len();
        assert(n0 < g0);
        let m = match self.edited.take() {
            Some(m) => m,
            None => String::new(),
        };
        match result {
            ValidationResult::Invalid { errors } => {
                proof {
                    self.texts@ = self.texts@.drop_last();
                }
                ApplyAction::Fail(ConfigError::ValidationFailed(errors))
            },
            ValidationResult::Valid => {
                let k = self.next;
                let total = self.groups.len();
                assert(k == n0 && total == g0);
                let ghost old_ready = self.ready@;
                self.ready.push((self.groups[k].0.clone(), m));
                self.next = k + 1;
                proof {
                    assert forall|i: int| 0 <= i < self.next implies {
                        &&& (#[trigger] self.ready@[i]).0@ == self.groups@[i].0@
                        &&& applied(self.texts@[i], group_changes(self.groups@[i]), Ok(self.ready@[i].1))
                    } by {
                        if i < k {
                            assert(self.ready@[i] == old_ready[i]);
                        }
                    }
                }
                if self.next == self.groups.len() {
                    ApplyAction::WriteAll(copy_pairs(&self.ready))
                } else {
                    ApplyAction::Read(self.groups[self.next].0.clone())
                }
            },
        }
    }
}

/// A copy of the file–text pairs.
fn copy_pairs(v: &Vec<(String, String)>) -> (r: Vec<(String, String)>)
    ensures
        r@ == v@,
{
    let mut r: Vec<(String, String)> = Vec::new();
    for i in 0..v.len()
        invariant
            r@ == v@.take(i as int),
    {
        let a = v[i].0.clone();
        let b = v[i].1.clone();
        assert(a@ == v@[i as int].0@ && b@ == v@[i as int].1@);
        r.push((a, b));
        assert(v@.take(i + 1) =~= v@.take(i as int).push(v@[i as int]));
    }
    assert(v@.take(v@.len() as int) =~= v@);
    r
}

/// Changes target at least one file exactly when there are changes.
proof fn lemma_files_nonempty(s: Seq<PendingChange>)
    ensures
        files_of(s).len() == 0 <==> s.len() == 0,
    decreases s.len(),
{
    if s.len() > 0 {
        lemma_files_nonempty(s.drop_last());
    }
}

} // verus!
