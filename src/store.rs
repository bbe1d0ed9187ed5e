//! Union-only records of observed type names, and how new observations merge
//! into them.
use vstd::prelude::*;

verus! {

/// The two kinds of record a completed frame contributes to.
#[derive(Clone, Copy, Debug)]
pub enum RecordKind {
    /// Types bound to one local variable of a call site.
    Locals,
    /// Types returned from a call site.
    Returns,
}

/// What a completed frame contributes to one record: the record's kind, its
/// file name within the kind's directory, and the type names observed.
pub struct Record {
    pub kind: RecordKind,
    pub name: String,
    pub types: Vec<String>,
}

/// The set of texts held in a sequence of lines.
pub open spec fn line_set(lines: Seq<String>) -> Set<Seq<char>> {
    Set::new(|t: Seq<char>| exists|i: int| 0 <= i < lines.len() && #[trigger] lines[i]@ == t)
}

/// No text appears twice among the lines.
pub open spec fn distinct_lines(lines: Seq<String>) -> bool {
    forall|i: int, j: int| 0 <= i < j < lines.len() ==> lines[i]@ != lines[j]@
}

/// Whether merging `new` into a record that holds `existing` rewrites it.
/// A locals record is rewritten when the union adds something; a returns
/// record whenever it does not already hold exactly the observed types.
pub open spec fn needs_write(
    kind: RecordKind,
    existing: Set<Seq<char>>,
    new: Set<Seq<char>>,
) -> bool {
    match kind {
        RecordKind::Locals => !new.subset_of(existing),
        RecordKind::Returns => existing != new,
    }
}

/// What a record holds after `new` has been merged into `existing`.
pub open spec fn persisted(
    kind: RecordKind,
    existing: Set<Seq<char>>,
    new: Set<Seq<char>>,
) -> Set<Seq<char>> {
    if needs_write(kind, existing, new) {
        existing.union(new)
    } else {
        existing
    }
}

pub(crate) proof fn lemma_line_set_push(s: Seq<String>, t: Seq<String>)
    requires
        t.len() == s.len() + 1,
        forall|i: int| 0 <= i < s.len() ==> #[trigger] t[i] == s[i],
    ensures
        line_set(t) == line_set(s).insert(t[s.len() as int]@),
{
    assert forall|x: Seq<char>| line_set(s).insert(t[s.len() as int]@).contains(x)
        implies line_set(t).contains(x) by {
        if x != t[s.len() as int]@ {
            let j = choose|j: int| 0 <= j < s.len() && #[trigger] s[j]@ == x;
            assert(t[j]@ == x);
        }
    }
    assert forall|x: Seq<char>| line_set(t).contains(x)
        implies line_set(s).insert(t[s.len() as int]@).contains(x) by {
        let j = choose|j: int| 0 <= j < t.len() && #[trigger] t[j]@ == x;
        if j < s.len() {
            assert(s[j]@ == x);
        }
    }
    assert(line_set(t) =~= line_set(s).insert(t[s.len() as int]@));
}

/// A copy of the lines.
pub(crate) fn copy_lines(lines: &Vec<String>) -> (r: Vec<String>)
    ensures
        r@.len() == lines@.len(),
        forall|i: int| 0 <= i < lines@.len() ==> #[trigger] r@[i]@ == lines@[i]@,
{
    let mut r: Vec<String> = Vec::new();
    let mut i: usize = 0;
    while i < lines.len()
        invariant
            i <= lines@.len(),
            r@.len() == i,
            forall|j: int| 0 <= j < i ==> #[trigger] r@[j]@ == lines@[j]@,
        decreases lines.len() - i,
    {
        r.push(lines[i].clone());
        i = i + 1;
    }
    r
}

/// Whether one of the lines holds `s`.
pub(crate) fn holds_line(lines: &Vec<String>, s: &String) -> (r: bool)
    ensures
        r == line_set(lines@).contains(s@),
{
    let mut i: usize = 0;
    while i < lines.len()
        invariant
            i <= lines@.len(),
            forall|j: int| 0 <= j < i ==> lines@[j]@ != s@,
        decreases lines.len() - i,
    {
        if lines[i] == *s {
            assert(line_set(lines@).contains(s@));
            return true;
        }
        i = i + 1;
    }
    false
}

/// Appends to `out` each of `lines` that it does not hold yet; reports
/// whether any was appended.
fn add_lines(out: &mut Vec<String>, lines: &Vec<String>) -> (added: bool)
    requires
        distinct_lines(old(out)@),
    ensures
        distinct_lines(final(out)@),
        line_set(final(out)@) == line_set(old(out)@).union(line_set(lines@)),
        added == !line_set(lines@).subset_of(line_set(old(out)@)),
{
    let ghost start = out@;
    let mut added = false;
    let mut i: usize = 0;
    while i < lines.len()
        invariant
            i <= lines@.len(),
            distinct_lines(out@),
            line_set(out@) == line_set(start).union(line_set(lines@.take(i as int))),
            added == !line_set(lines@.take(i as int)).subset_of(line_set(start)),
        decreases lines.len() - i,
    {
        let ghost before = out@;
        assert(lines@.take(i + 1) =~= lines@.take(i as int).push(lines@[i as int]));
        if !holds_line(out, &lines[i]) {
            let line = lines[i].clone();
            out.push(line);
            assert(line_set(out@) =~= line_set(before).insert(lines@[i as int]@)) by {
                assert forall|t: Seq<char>| line_set(before).insert(lines@[i as int]@).contains(
                    t,
                ) implies line_set(out@).contains(t) by {
                    if t == lines@[i as int]@ {
                        assert(out@[before.len() as int]@ == t);
                    } else {
                        let j = choose|j: int| 0 <= j < before.len() && before[j]@ == t;
                        assert(out@[j]@ == t);
                    }
                }
            }
            added = true;
        } else {
            assert(line_set(out@) =~= line_set(before).insert(lines@[i as int]@));
        }
        i = i + 1;
        assert(line_set(lines@.take(i as int)) =~= line_set(lines@.take(i - 1)).insert(
            lines@[i - 1]@,
        )) by {
            assert forall|t: Seq<char>| line_set(lines@.take(i - 1)).insert(
                lines@[i - 1]@,
            ).contains(t) implies line_set(lines@.take(i as int)).contains(t) by {
                if t == lines@[i - 1]@ {
                    assert(lines@.take(i as int)[i - 1]@ == t);
                } else {
                    let j = choose|j: int|
                        0 <= j < i - 1 && #[trigger] lines@.take(i - 1)[j]@ == t;
                    assert(lines@.take(i as int)[j]@ == t);
                }
            }
        }
        assert(line_set(out@) =~= line_set(start).union(line_set(lines@.take(i as int))));
    }
    assert(lines@.take(lines@.len() as int) =~= lines@);
    added
}

/// Merges a frame's observations into the lines a record holds now.
/// Returns the lines to write back, each text once, or `None` where the
/// record is to be left as it is.
pub fn merge(existing: &Vec<String>, record: &Record) -> (r: Option<Vec<String>>)
    ensures
        r is Some <==> needs_write(record.kind, line_set(existing@), line_set(record.types@)),
        r matches Some(lines) ==> distinct_lines(lines@) && line_set(lines@) == persisted(
            record.kind,
            line_set(existing@),
            line_set(record.types@),
        ),
{
    let mut merged: Vec<String> = Vec::new();
    assert(line_set(merged@) =~= Set::<Seq<char>>::empty());
    add_lines(&mut merged, existing);
    assert(line_set(merged@) =~= line_set(existing@));
    let ghost base = merged@;
    let grew = add_lines(&mut merged, &record.types);
    let write = match record.kind {
        RecordKind::Locals => grew,
        RecordKind::Returns => {
            let mut covered = Vec::new();
            assert(line_set(covered@) =~= Set::<Seq<char>>::empty());
            add_lines(&mut covered, &record.types);
            assert(line_set(covered@) =~= line_set(record.types@));
            let differs = grew || add_lines(&mut covered, existing);
            assert(!differs ==> line_set(existing@) =~= line_set(record.types@));
            differs
        },
    };
    if write {
        Some(merged)
    } else {
        None
    }
}

/// After a merge a record holds the union of what it held and what was merged.
pub proof fn lemma_persisted_is_union(
    kind: RecordKind,
    existing: Set<Seq<char>>,
    new: Set<Seq<char>>,
)
    ensures
        persisted(kind, existing, new) == existing.union(new),
{
    if !needs_write(kind, existing, new) {
        assert(existing.union(new) =~= existing);
    }
}

/// Merging the same observations a second time leaves the record as the
/// first merge left it.
pub proof fn lemma_merge_twice_same_set(
    kind: RecordKind,
    existing: Set<Seq<char>>,
    new: Set<Seq<char>>,
)
    ensures
        persisted(kind, persisted(kind, existing, new), new) == persisted(kind, existing, new),
{
    lemma_persisted_is_union(kind, existing, new);
    lemma_persisted_is_union(kind, existing.union(new), new);
    assert(existing.union(new).union(new) =~= existing.union(new));
}

/// The second of two equal merges does not rewrite the record: for a locals
/// record always, for a returns record where it held nothing beyond the
/// observed types.
pub proof fn lemma_merge_twice_no_write(
    kind: RecordKind,
    existing: Set<Seq<char>>,
    new: Set<Seq<char>>,
)
    requires
        kind is Locals || existing.subset_of(new),
    ensures
        !needs_write(kind, persisted(kind, existing, new), new),
{
    lemma_persisted_is_union(kind, existing, new);
    if kind is Returns {
        assert(existing.union(new) =~= new);
    }
}

/// What a record holds after each of `steps` has been merged into it in turn.
pub open spec fn persisted_after(
    kind: RecordKind,
    existing: Set<Seq<char>>,
    steps: Seq<Set<Seq<char>>>,
) -> Set<Seq<char>>
    decreases steps.len(),
{
    if steps.len() == 0 {
        existing
    } else {
        persisted(kind, persisted_after(kind, existing, steps.drop_last()), steps.last())
    }
}

/// Along any sequence of merges into one record, what it holds after a step
/// includes what it held before that step.
pub proof fn lemma_merge_monotone(
    kind: RecordKind,
    existing: Set<Seq<char>>,
    steps: Seq<Set<Seq<char>>>,
    k: int,
)
    requires
        0 < k <= steps.len(),
    ensures
        persisted_after(kind, existing, steps.take(k - 1)).subset_of(
            persisted_after(kind, existing, steps.take(k)),
        ),
{
    let before = persisted_after(kind, existing, steps.take(k - 1));
    assert(steps.take(k).drop_last() =~= steps.take(k - 1));
    lemma_persisted_is_union(kind, before, steps[k - 1]);
}

} // verus!
