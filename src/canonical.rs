//! Canonical forms of runtime identifiers.
use vstd::prelude::*;

verus! {

/// Number of characters in a generated object tag: `:0x` and sixteen hex digits.
const TAG_LEN: usize = 19;

/// An ASCII hexadecimal digit, in either case.
pub open spec fn is_hex_digit(c: char) -> bool {
    ('0' <= c && c <= '9') || ('a' <= c && c <= 'f') || ('A' <= c && c <= 'F')
}

/// A generated object tag starts at position `i` of `s`.
pub open spec fn tag_at(s: Seq<char>, i: int) -> bool {
    &&& 0 <= i
    &&& i + 19 <= s.len()
    &&& s[i] == ':'
    &&& s[i + 1] == '0'
    &&& s[i + 2] == 'x'
    &&& forall|k: int| 3 <= k < 19 ==> is_hex_digit(#[trigger] s[i + k])
}

/// The text that replaces each generated object tag.
pub open spec fn generated_marker() -> Seq<char> {
    seq![':', '(', 'g', 'e', 'n', 'e', 'r', 'a', 't', 'e', 'd', ')']
}

/// `s` with every generated object tag, scanned left to right, replaced by the marker.
pub open spec fn strip_tags(s: Seq<char>) -> Seq<char>
    decreases s.len(),
{
    if s.len() == 0 {
        Seq::empty()
    } else if tag_at(s, 0) {
        generated_marker() + strip_tags(s.skip(19))
    } else {
        seq![s[0]] + strip_tags(s.skip(1))
    }
}

/// The canonical form of a raw identifier.
pub open spec fn canonical(s: Seq<char>) -> Seq<char> {
    let t = strip_tags(s);
    if t == "NilClass"@ {
        "nil"@
    } else if t == "TrueClass"@ || t == "FalseClass"@ {
        "Boolean"@
    } else {
        t
    }
}

fn is_hex_char(c: char) -> (r: bool)
    ensures
        r == is_hex_digit(c),
{
    ('0' <= c && c <= '9') || ('a' <= c && c <= 'f') || ('A' <= c && c <= 'F')
}

fn has_tag_at(s: &str, i: usize) -> (r: bool)
    requires
        i <= s@.len(),
    ensures
        r == tag_at(s@, i as int),
{
    let n = s.unicode_len();
    if n - i < TAG_LEN {
        return false;
    }
    if s.get_char(i) != ':' || s.get_char(i + 1) != '0' || s.get_char(i + 2) != 'x' {
        return false;
    }
    let mut k: usize = 3;
    while k < TAG_LEN
        invariant
            3 <= k <= TAG_LEN,
            n as int == s@.len(),
            i + TAG_LEN <= s@.len(),
            forall|j: int| 3 <= j < k ==> is_hex_digit(#[trigger] s@[i + j]),
        decreases TAG_LEN - k,
    {
        if !is_hex_char(s.get_char(i + k)) {
            return false;
        }
        k = k + 1;
    }
    true
}

proof fn lemma_strip_step(s: Seq<char>, i: int)
    requires
        0 <= i < s.len(),
    ensures
        strip_tags(s.skip(i)) == if tag_at(s, i) {
            generated_marker() + strip_tags(s.skip(i + 19))
        } else {
            seq![s[i]] + strip_tags(s.skip(i + 1))
        },
{
    let t = s.skip(i);
    assert forall|k: int| 0 <= k < t.len() implies #[trigger] t[k] == s[i + k] by {}
    assert(tag_at(t, 0) == tag_at(s, i)) by {
        if tag_at(s, i) {
            assert forall|k: int| 3 <= k < 19 implies is_hex_digit(#[trigger] t[0 + k]) by {
                assert(t[k] == s[i + k]);
            }
        }
        if tag_at(t, 0) {
            assert forall|k: int| 3 <= k < 19 implies is_hex_digit(#[trigger] s[i + k]) by {
                assert(t[0 + k] == s[i + k]);
            }
        }
    }
    if tag_at(s, i) {
        assert(t.skip(19) =~= s.skip(i + 19));
    } else {
        assert(t.skip(1) =~= s.skip(i + 1));
    }
}

/// Replaces every generated object tag of `s` by the marker, leaving the rest verbatim.
fn strip_generated_tags(s: &str) -> (r: String)
    ensures
        r@ == strip_tags(s@),
{
    let n = s.unicode_len();
    let mut out = String::new();
    let mut start: usize = 0;
    let mut i: usize = 0;
    assert(s@.skip(0) =~= s@);
    assert(out@ + s@.subrange(0, 0) + strip_tags(s@.skip(0)) =~= strip_tags(s@));
    while i < n
        invariant
            start <= i <= n,
            n as int == s@.len(),
            out@ + s@.subrange(start as int, i as int) + strip_tags(s@.skip(i as int)) == strip_tags(
                s@,
            ),
        decreases n - i,
    {
        proof {
            lemma_strip_step(s@, i as int);
        }
        let ghost i0 = i as int;
        let ghost start0 = start as int;
        let ghost out0 = out@;
        if has_tag_at(s, i) {
            let pending = s.substring_char(start, i);
            out.append(pending);
            out.append(":(generated)");
            proof {
                reveal_strlit(":(generated)");
                assert(":(generated)"@ =~= generated_marker());
            }
            i = i + TAG_LEN;
            start = i;
            assert(out@ + s@.subrange(start as int, i as int) + strip_tags(s@.skip(i as int))
                =~= out0 + s@.subrange(start0, i0) + (generated_marker() + strip_tags(
                s@.skip(i0 + 19))));
        } else {
            i = i + 1;
            assert(out@ + s@.subrange(start as int, i as int) + strip_tags(s@.skip(i as int))
                =~= out0 + s@.subrange(start0, i0) + (seq![s@[i0]] + strip_tags(s@.skip(i0 + 1))));
        }
    }
    assert(s@.skip(n as int) =~= Seq::<char>::empty());
    let rest = s.substring_char(start, n);
    out.append(rest);
    out
}

/// The canonical form of a raw runtime identifier: generated object tags are
/// replaced by a fixed marker, then `NilClass` becomes `nil` and `TrueClass` /
/// `FalseClass` become `Boolean`.
pub fn canonicalize(raw: &str) -> (r: String)
    ensures
        r@ == canonical(raw@),
{
    let stripped = strip_generated_tags(raw);
    if stripped == String::from_str("NilClass") {
        String::from_str("nil")
    } else if stripped == String::from_str("TrueClass") || stripped == String::from_str(
        "FalseClass",
    ) {
        String::from_str("Boolean")
    } else {
        stripped
    }
}

/// A generated object tag: `:0x` followed by the sixteen hex digits `h`.
pub open spec fn tag_of(h: Seq<char>) -> Seq<char> {
    seq![':', '0', 'x'] + h
}

proof fn lemma_strip_around_tag(p: Seq<char>, h: Seq<char>, q: Seq<char>)
    requires
        h.len() == 16,
        forall|k: int| 0 <= k < 16 ==> is_hex_digit(#[trigger] h[k]),
    ensures
        strip_tags(p + tag_of(h) + q) == strip_tags(p) + generated_marker() + strip_tags(q),
    decreases p.len(),
{
    let t = tag_of(h);
    let w = p + t + q;
    assert(t.len() == 19);
    if p.len() == 0 {
        assert(w =~= t + q);
        assert forall|k: int| 3 <= k < 19 implies is_hex_digit(#[trigger] w[0 + k]) by {
            assert(w[k] == h[k - 3]);
        }
        assert(tag_at(w, 0));
        assert(w.skip(19) =~= q);
        assert(strip_tags(p) =~= Seq::<char>::empty());
        assert(strip_tags(p) + generated_marker() + strip_tags(q) =~= generated_marker()
            + strip_tags(q));
    } else {
        assert(w.len() > 0);
        if p.len() >= 19 {
            assert forall|k: int| 0 <= k < 19 implies #[trigger] w[k] == p[k] by {}
            assert(tag_at(w, 0) == tag_at(p, 0)) by {
                if tag_at(p, 0) {
                    assert forall|k: int| 3 <= k < 19 implies is_hex_digit(#[trigger] w[0 + k]) by {
                        assert(w[k] == p[k]);
                    }
                }
                if tag_at(w, 0) {
                    assert forall|k: int| 3 <= k < 19 implies is_hex_digit(#[trigger] p[0 + k]) by {
                        assert(w[0 + k] == p[k]);
                    }
                }
            }
        } else {
            let j = p.len() as int;
            assert(w[j] == ':');
            if tag_at(w, 0) {
                if j >= 3 {
                    assert(is_hex_digit(w[0 + j]));
                }
            }
            assert(!tag_at(w, 0));
            assert(!tag_at(p, 0));
        }
        if tag_at(p, 0) {
            let p1 = p.skip(19);
            assert(w.skip(19) =~= p1 + t + q);
            lemma_strip_around_tag(p1, h, q);
            assert(strip_tags(w) =~= strip_tags(p) + generated_marker() + strip_tags(q));
        } else {
            let p1 = p.skip(1);
            assert(w.skip(1) =~= p1 + t + q);
            assert(w[0] == p[0]);
            lemma_strip_around_tag(p1, h, q);
            assert(strip_tags(w) =~= strip_tags(p) + generated_marker() + strip_tags(q));
        }
    }
}

/// A colon, `0x` and sixteen hex digits become the generated marker wherever
/// they stand, whatever text precedes or follows them.
pub proof fn lemma_generated_tag_replaced(p: Seq<char>, h: Seq<char>, q: Seq<char>)
    requires
        h.len() == 16,
        forall|k: int| 0 <= k < 16 ==> is_hex_digit(#[trigger] h[k]),
    ensures
        canonical(p + tag_of(h) + q) == strip_tags(p) + generated_marker() + strip_tags(q),
{
    lemma_strip_around_tag(p, h, q);
    reveal_strlit("NilClass");
    reveal_strlit("TrueClass");
    reveal_strlit("FalseClass");
    let t = strip_tags(p) + generated_marker() + strip_tags(q);
    assert(t.len() >= 12);
}

} // verus!
