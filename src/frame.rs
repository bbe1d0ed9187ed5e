//! One entry of a call stack and what it contributes to the record store.
use vstd::prelude::*;
use crate::event::Event;
use crate::store::{
    copy_lines, distinct_lines, holds_line, lemma_line_set_push, line_set, Record, RecordKind,
};

verus! {

/// The type names observed for one local variable.
struct LocalTypes {
    name: String,
    types: Vec<String>,
}

/// One call-stack entry: the event that opened it, the caller's location,
/// the types observed for each local variable, and the return type (empty
/// until one is attached).
pub struct Frame {
    event: Event,
    caller_file: String,
    caller_line: i32,
    locals: Vec<LocalTypes>,
    return_type: String,
}

/// Name of the locals record of variable `var` at the call site keyed `sig`.
pub open spec fn local_record_name(sig: Seq<char>, var: Seq<char>) -> Seq<char> {
    sig + seq!['%'] + var
}

/// `rec` is the locals record of `var` at call site `sig`, carrying `types`.
pub open spec fn is_local_record(
    rec: Record,
    sig: Seq<char>,
    var: Seq<char>,
    types: Set<Seq<char>>,
) -> bool {
    &&& rec.kind is Locals
    &&& rec.name@ == local_record_name(sig, var)
    &&& line_set(rec.types@) == types
}

/// `rec` is the returns record of call site `sig`, carrying the one type `ret`.
pub open spec fn is_return_record(rec: Record, sig: Seq<char>, ret: Seq<char>) -> bool {
    &&& rec.kind is Returns
    &&& rec.name@ == sig
    &&& line_set(rec.types@) == set![ret]
}

impl Frame {
    /// Variable names are distinct and each variable's types are distinct.
    pub closed spec fn wf(&self) -> bool {
        &&& forall|i: int, j: int|
            0 <= i < j < self.locals@.len() ==> self.locals@[i].name@ != self.locals@[j].name@
        &&& forall|i: int| 0 <= i < self.locals@.len()
            ==> distinct_lines(#[trigger] self.locals@[i].types@)
    }

    pub closed spec fn spec_event(&self) -> Event {
        self.event
    }

    pub closed spec fn spec_caller_file(&self) -> Seq<char> {
        self.caller_file@
    }

    pub closed spec fn spec_caller_line(&self) -> i32 {
        self.caller_line
    }

    /// The return type attached to this frame; empty while none is.
    pub closed spec fn spec_return_type(&self) -> Seq<char> {
        self.return_type@
    }

    /// The set of type names observed for each local variable.
    pub closed spec fn locals_view(&self) -> Map<Seq<char>, Set<Seq<char>>> {
        Map::new(
            |k: Seq<char>| exists|i: int| 0 <= i < self.locals@.len()
                && #[trigger] self.locals@[i].name@ == k,
            |k: Seq<char>|
                Set::new(
                    |t: Seq<char>|
                        exists|i: int|
                            0 <= i < self.locals@.len() && #[trigger] self.locals@[i].name@ == k
                                && line_set(self.locals@[i].types@).contains(t),
                ),
        )
    }

    /// `rec` is one of the records this frame contributes: the locals record
    /// of one of its variables, or its returns record.
    pub open spec fn contributes(&self, rec: Record) -> bool {
        ||| exists|var: Seq<char>|
            self.locals_view().contains_key(var) && #[trigger] is_local_record(
                rec,
                self.key(),
                var,
                self.locals_view()[var],
            )
        ||| self.spec_return_type().len() > 0 && is_return_record(
            rec,
            self.key(),
            self.spec_return_type(),
        )
    }

    /// The types observed so far for `var`.
    pub open spec fn types_of(&self, var: Seq<char>) -> Set<Seq<char>> {
        if self.locals_view().contains_key(var) {
            self.locals_view()[var]
        } else {
            Set::empty()
        }
    }

    /// The call-site key of this frame.
    pub open spec fn key(&self) -> Seq<char> {
        self.spec_event().key()
    }

    /// A frame for `event`, opened from `caller_file` at `caller_line`, with
    /// no locals and no return type yet.
    pub fn new(event: Event, caller_file: String, caller_line: i32) -> (r: Frame)
        ensures
            r.wf(),
            r.spec_event() == event,
            r.spec_caller_file() == caller_file@,
            r.spec_caller_line() == caller_line,
            r.locals_view() == Map::<Seq<char>, Set<Seq<char>>>::empty(),
            r.spec_return_type() == Seq::<char>::empty(),
    {
        let r = Frame {
            event: event,
            caller_file: caller_file,
            caller_line: caller_line,
            locals: Vec::new(),
            return_type: String::new(),
        };
        assert(r.locals_view() =~= Map::<Seq<char>, Set<Seq<char>>>::empty());
        r
    }

    /// Records that `var_name` was bound to a value of type `class_name`: the
    /// type joins the variable's set, which is created where it is missing.
    pub fn add_local(&mut self, var_name: &str, class_name: &str)
        requires
            old(self).wf(),
        ensures
            final(self).wf(),
            final(self).locals_view() == old(self).locals_view().insert(
                var_name@,
                old(self).types_of(var_name@).insert(class_name@),
            ),
            final(self).spec_event() == old(self).spec_event(),
            final(self).spec_caller_file() == old(self).spec_caller_file(),
            final(self).spec_caller_line() == old(self).spec_caller_line(),
            final(self).spec_return_type() == old(self).spec_return_type(),
    {
        let ghost s0 = *self;
        let var = String::from_str(var_name);
        let ty = String::from_str(class_name);
        let mut i: usize = 0;
        while i < self.locals.len()
            invariant
                i <= self.locals@.len(),
                *self == s0,
                s0 == *old(self),
                s0.wf(),
                var@ == var_name@,
                ty@ == class_name@,
                forall|j: int| 0 <= j < i ==> self.locals@[j].name@ != var@,
            decreases self.locals.len() - i,
        {
            if self.locals[i].name == var {
                let found = holds_line(&self.locals[i].types, &ty);
                let ghost old_types = self.locals@[i as int].types@;
                if !found {
                    self.locals[i].types.push(ty);
                    proof {
                        lemma_line_set_push(old_types, self.locals@[i as int].types@);
                    }
                } else {
                    assert(line_set(old_types).insert(class_name@) =~= line_set(old_types));
                }
                proof {
                    let ii = i as int;
                    assert(line_set(self.locals@[ii].types@) == line_set(old_types).insert(
                        class_name@,
                    ));
                    assert(self.locals@.len() == s0.locals@.len());
                    assert forall|j: int| 0 <= j < self.locals@.len() && j != ii
                        implies #[trigger] self.locals@[j] == s0.locals@[j] by {}
                    assert forall|j: int| 0 <= j < self.locals@.len()
                        implies #[trigger] self.locals@[j].name@ == s0.locals@[j].name@ by {}
                    lemma_view_after_update(s0, *self, ii, class_name@);
                }
                return;
            }
            i = i + 1;
        }
        let mut types = Vec::new();
        types.push(ty);
        self.locals.push(LocalTypes { name: var, types: types });
        proof {
            let n = s0.locals@.len() as int;
            assert(line_set(self.locals@[n].types@) =~= set![class_name@]) by {
                assert(self.locals@[n].types@[0]@ == class_name@);
            }
            lemma_view_after_push(s0, *self, class_name@);
        }
    }
}

impl Frame {
    pub fn event(&self) -> (r: &Event)
        ensures
            *r == self.spec_event(),
    {
        &self.event
    }

    pub fn caller_file(&self) -> (r: &String)
        ensures
            r@ == self.spec_caller_file(),
    {
        &self.caller_file
    }

    pub fn caller_line(&self) -> (r: i32)
        ensures
            r == self.spec_caller_line(),
    {
        self.caller_line
    }

    /// The attached return type; empty while none is.
    pub fn return_type(&self) -> (r: &String)
        ensures
            r@ == self.spec_return_type(),
    {
        &self.return_type
    }

    /// Attaches the return type; an empty one stands for none.
    pub fn set_return_type(&mut self, value: String)
        requires
            old(self).wf(),
        ensures
            final(self).wf(),
            final(self).spec_return_type() == value@,
            final(self).locals_view() == old(self).locals_view(),
            final(self).spec_event() == old(self).spec_event(),
            final(self).spec_caller_file() == old(self).spec_caller_file(),
            final(self).spec_caller_line() == old(self).spec_caller_line(),
    {
        self.return_type = value;
    }

    /// The call-site key of this frame's event.
    pub fn format(&self) -> (r: String)
        ensures
            r@ == self.key(),
    {
        self.event.format()
    }

    /// What this frame contributes to the record store: one locals record for
    /// each variable observed, named `key%variable` and carrying the
    /// variable's types, and, where a return type is attached, one returns
    /// record named by the key and carrying that type.
    pub fn records(&self) -> (r: Vec<Record>)
        requires
            self.wf(),
        ensures
            forall|var: Seq<char>| #[trigger] self.locals_view().contains_key(var)
                ==> exists|i: int|
                0 <= i < r@.len()
                    && is_local_record(r@[i], self.key(), var, self.locals_view()[var]),
            forall|i: int| 0 <= i < r@.len() ==> self.contributes(#[trigger] r@[i]),
            forall|i: int, j: int| 0 <= i < j < r@.len() ==> r@[i].name@ != r@[j].name@,
            self.spec_return_type().len() > 0 ==> exists|i: int|
                0 <= i < r@.len() && is_return_record(r@[i], self.key(), self.spec_return_type()),
    {
        let sig = self.event.format();
        let mut out: Vec<Record> = Vec::new();
        let mut i: usize = 0;
        while i < self.locals.len()
            invariant
                i <= self.locals@.len(),
                self.wf(),
                sig@ == self.key(),
                out@.len() == i,
                forall|a: int, b: int| 0 <= a < b < i ==> out@[a].name@ != out@[b].name@,
                forall|j: int| 0 <= j < i ==> is_local_record(
                    #[trigger] out@[j],
                    self.key(),
                    self.locals@[j].name@,
                    self.locals_view()[self.locals@[j].name@],
                ),
            decreases self.locals.len() - i,
        {
            let mut name = sig.clone();
            name.append("%");
            name.append(self.locals[i].name.as_str());
            let types = copy_lines(&self.locals[i].types);
            proof {
                reveal_strlit("%");
                assert(name@ =~= local_record_name(self.key(), self.locals@[i as int].name@));
                self.lemma_view_at(i as int);
                assert forall|a: int| 0 <= a < i implies out@[a].name@ != name@ by {
                    let (va, vi) = (self.locals@[a].name@, self.locals@[i as int].name@);
                    lemma_record_names_differ(self.key(), va, vi);
                }
                assert(line_set(types@) =~= line_set(self.locals@[i as int].types@)) by {
                    assert forall|x: Seq<char>| line_set(types@).contains(x)
                        implies line_set(self.locals@[i as int].types@).contains(x) by {
                        let j = choose|j: int| 0 <= j < types@.len() && #[trigger] types@[j]@ == x;
                        assert(self.locals@[i as int].types@[j]@ == x);
                    }
                    assert forall|x: Seq<char>| line_set(self.locals@[i as int].types@).contains(x)
                        implies line_set(types@).contains(x) by {
                        let j = choose|j: int| 0 <= j < self.locals@[i as int].types@.len()
                            && #[trigger] self.locals@[i as int].types@[j]@ == x;
                        assert(types@[j]@ == x);
                    }
                }
            }
            out.push(Record { kind: RecordKind::Locals, name: name, types: types });
            i = i + 1;
        }
        let n = out.len();
        if !self.return_type.as_str().is_empty() {
            let mut types = Vec::new();
            types.push(self.return_type.clone());
            proof {
                assert(line_set(types@) =~= set![self.return_type@]) by {
                    assert(types@[0]@ == self.return_type@);
                }
            }
            proof {
                assert forall|a: int| 0 <= a < n implies out@[a].name@ != sig@ by {
                    let va = self.locals@[a].name@;
                    assert(out@[a].name@.len() > sig@.len());
                }
            }
            out.push(Record { kind: RecordKind::Returns, name: sig, types: types });
            assert(is_return_record(out@[n as int], self.key(), self.spec_return_type()));
        }
        assert(out@.len() > n
            ==> self.spec_return_type().len() > 0
            && is_return_record(out@[n as int], self.key(), self.spec_return_type()));
        proof {
            assert forall|var: Seq<char>| #[trigger] self.locals_view().contains_key(var)
                implies exists|i: int|
                0 <= i < out@.len()
                    && is_local_record(out@[i], self.key(), var, self.locals_view()[var]) by {
                let j = choose|j: int| 0 <= j < self.locals@.len()
                    && #[trigger] self.locals@[j].name@ == var;
                assert(is_local_record(out@[j], self.key(), var, self.locals_view()[var]));
            }
            assert forall|i: int| 0 <= i < out@.len()
                implies self.contributes(#[trigger] out@[i]) by {
                if i < n {
                    let var = self.locals@[i].name@;
                    assert(self.locals_view().contains_key(var));
                    assert(is_local_record(out@[i], self.key(), var, self.locals_view()[var]));
                } else {
                    assert(self.spec_return_type().len() > 0);
                }
            }
        }
        out
    }

    /// The set held for a variable is that of its one entry.
    proof fn lemma_view_at(&self, i: int)
        requires
            self.wf(),
            0 <= i < self.locals@.len(),
        ensures
            self.locals_view().contains_key(self.locals@[i].name@),
            self.locals_view()[self.locals@[i].name@] == line_set(self.locals@[i].types@),
    {
        let k = self.locals@[i].name@;
        assert(self.locals_view().contains_key(k));
        assert forall|x: Seq<char>| self.locals_view()[k].contains(x)
            implies line_set(self.locals@[i].types@).contains(x) by {
            let j = choose|j: int| 0 <= j < self.locals@.len()
                && #[trigger] self.locals@[j].name@ == k
                && line_set(self.locals@[j].types@).contains(x);
            if j != i {
                if j < i {
                    assert(self.locals@[j].name@ != self.locals@[i].name@);
                } else {
                    assert(self.locals@[i].name@ != self.locals@[j].name@);
                }
            }
        }
        assert(self.locals_view()[k] =~= line_set(self.locals@[i].types@));
    }
}

/// Distinct variables give distinct locals record names.
proof fn lemma_record_names_differ(sig: Seq<char>, v: Seq<char>, w: Seq<char>)
    requires
        v != w,
    ensures
        local_record_name(sig, v) != local_record_name(sig, w),
{
    let (a, b) = (local_record_name(sig, v), local_record_name(sig, w));
    let k = sig.len() as int + 1;
    assert(a.subrange(k, a.len() as int) =~= v);
    assert(b.subrange(k, b.len() as int) =~= w);
}

/// The locals of `after` are those of `before` with entry `i` gaining `t`.
proof fn lemma_view_after_update(before: Frame, after: Frame, i: int, t: Seq<char>)
    requires
        before.wf(),
        0 <= i < before.locals@.len(),
        after.locals@.len() == before.locals@.len(),
        forall|j: int| 0 <= j < after.locals@.len()
            ==> #[trigger] after.locals@[j].name@ == before.locals@[j].name@,
        forall|j: int| 0 <= j < after.locals@.len() && j != i
            ==> #[trigger] after.locals@[j] == before.locals@[j],
        line_set(after.locals@[i].types@) == line_set(before.locals@[i].types@).insert(t),
        distinct_lines(after.locals@[i].types@),
    ensures
        after.wf(),
        after.locals_view() == before.locals_view().insert(
            before.locals@[i].name@,
            before.types_of(before.locals@[i].name@).insert(t),
        ),
{
    let var = before.locals@[i].name@;
    let nv = after.locals_view();
    let ov = before.locals_view();
    assert(ov.contains_key(var) && before.locals@[i].name@ == var);
    assert forall|j: int| 0 <= j < after.locals@.len()
        implies distinct_lines(#[trigger] after.locals@[j].types@) by {
        if j != i {
            assert(after.locals@[j] == before.locals@[j]);
        }
    }
    assert forall|k: Seq<char>| nv.contains_key(k) <==> #[trigger] ov.contains_key(k) by {
        if nv.contains_key(k) {
            let j = choose|j: int| 0 <= j < after.locals@.len()
                && #[trigger] after.locals@[j].name@ == k;
            assert(before.locals@[j].name@ == k);
        }
        if ov.contains_key(k) {
            let j = choose|j: int| 0 <= j < before.locals@.len()
                && #[trigger] before.locals@[j].name@ == k;
            assert(after.locals@[j].name@ == k);
        }
    }
    assert forall|k: Seq<char>| #[trigger] nv.contains_key(k)
        implies nv[k] =~= (if k == var { ov[var].insert(t) } else { ov[k] }) by {
        assert forall|x: Seq<char>| nv[k].contains(x)
            implies (if k == var { ov[var].insert(t) } else { ov[k] }).contains(x) by {
            let j = choose|j: int| 0 <= j < after.locals@.len()
                && #[trigger] after.locals@[j].name@ == k
                && line_set(after.locals@[j].types@).contains(x);
            if j != i {
                assert(before.locals@[j] == after.locals@[j]);
            } else if x != t {
                assert(line_set(before.locals@[i].types@).contains(x));
            }
        }
        assert forall|x: Seq<char>| (if k == var { ov[var].insert(t) } else { ov[k] }).contains(x)
            implies nv[k].contains(x) by {
            if k == var && x == t {
                assert(after.locals@[i].name@ == k
                    && line_set(after.locals@[i].types@).contains(x));
            } else {
                let j = choose|j: int| 0 <= j < before.locals@.len()
                    && #[trigger] before.locals@[j].name@ == k
                    && line_set(before.locals@[j].types@).contains(x);
                if j != i {
                    assert(before.locals@[j] == after.locals@[j]);
                } else {
                    assert(line_set(after.locals@[i].types@).contains(x));
                }
            }
        }
    }
    assert(nv =~= ov.insert(var, ov[var].insert(t)));
}

/// The locals of `after` are those of `before` with a new variable holding `t`.
proof fn lemma_view_after_push(before: Frame, after: Frame, t: Seq<char>)
    requires
        before.wf(),
        after.locals@.len() == before.locals@.len() + 1,
        forall|j: int| 0 <= j < before.locals@.len()
            ==> #[trigger] after.locals@[j] == before.locals@[j],
        forall|j: int| 0 <= j < before.locals@.len()
            ==> #[trigger] before.locals@[j].name@ != after.locals@[before.locals@.len() as int].name@,
        line_set(after.locals@[before.locals@.len() as int].types@) == set![t],
        distinct_lines(after.locals@[before.locals@.len() as int].types@),
    ensures
        after.wf(),
        after.locals_view() == before.locals_view().insert(
            after.locals@[before.locals@.len() as int].name@,
            before.types_of(after.locals@[before.locals@.len() as int].name@).insert(t),
        ),
{
    let n = before.locals@.len() as int;
    let var = after.locals@[n].name@;
    let nv = after.locals_view();
    let ov = before.locals_view();
    assert(!ov.contains_key(var)) by {
        if ov.contains_key(var) {
            let j = choose|j: int| 0 <= j < before.locals@.len()
                && #[trigger] before.locals@[j].name@ == var;
        }
    }
    assert forall|i: int, j: int| 0 <= i < j < after.locals@.len()
        implies after.locals@[i].name@ != after.locals@[j].name@ by {
        if j < n {
            assert(after.locals@[i] == before.locals@[i]);
            assert(after.locals@[j] == before.locals@[j]);
        } else {
            assert(after.locals@[i] == before.locals@[i]);
        }
    }
    assert forall|j: int| 0 <= j < after.locals@.len()
        implies distinct_lines(#[trigger] after.locals@[j].types@) by {
        if j < n {
            assert(after.locals@[j] == before.locals@[j]);
        }
    }
    assert forall|k: Seq<char>| nv.contains_key(k) <==> #[trigger] ov.insert(var, set![t]).contains_key(k) by {
        if nv.contains_key(k) && k != var {
            let j = choose|j: int| 0 <= j < after.locals@.len()
                && #[trigger] after.locals@[j].name@ == k;
            assert(before.locals@[j].name@ == k);
        }
        if ov.contains_key(k) {
            let j = choose|j: int| 0 <= j < before.locals@.len()
                && #[trigger] before.locals@[j].name@ == k;
            assert(after.locals@[j].name@ == k);
        }
        if k == var {
            assert(after.locals@[n].name@ == k);
        }
    }
    assert forall|k: Seq<char>| #[trigger] nv.contains_key(k)
        implies nv[k] =~= ov.insert(var, set![t])[k] by {
        assert forall|x: Seq<char>| nv[k].contains(x)
            implies ov.insert(var, set![t])[k].contains(x) by {
            let j = choose|j: int| 0 <= j < after.locals@.len()
                && #[trigger] after.locals@[j].name@ == k
                && line_set(after.locals@[j].types@).contains(x);
            if j < n {
                assert(before.locals@[j] == after.locals@[j]);
            }
        }
        assert forall|x: Seq<char>| ov.insert(var, set![t])[k].contains(x)
            implies nv[k].contains(x) by {
            if k == var {
                assert(after.locals@[n].name@ == k
                    && line_set(after.locals@[n].types@).contains(x));
            } else {
                let j = choose|j: int| 0 <= j < before.locals@.len()
                    && #[trigger] before.locals@[j].name@ == k
                    && line_set(before.locals@[j].types@).contains(x);
                assert(before.locals@[j] == after.locals@[j]);
            }
        }
    }
    assert(Set::<Seq<char>>::empty().insert(t) =~= set![t]);
    assert(nv =~= ov.insert(var, set![t]));
}

} // verus!
