//! Traced events and the call-site keys they format to.
use vstd::prelude::*;
use crate::canonical::{canonical, canonicalize};

verus! {

/// The kinds of event that the host hook layer reports.
#[derive(Clone, Copy, Debug)]
pub enum EventType {
    BCall,
    Class,
    Call,
    Return,
    BReturn,
    End,
}

impl EventType {
    /// The integer code of each kind at the hook boundary.
    pub open spec fn code(&self) -> int {
        match self {
            EventType::BCall => 1,
            EventType::Class => 2,
            EventType::Call => 3,
            EventType::Return => 4,
            EventType::BReturn => 5,
            EventType::End => 6,
        }
    }

    /// Entry kinds open a frame; the others close one.
    pub open spec fn opens_frame(&self) -> bool {
        self.code() <= 3
    }

    /// The kind with the given code; codes outside one to six are a protocol violation.
    pub fn from_int(i: i32) -> (r: EventType)
        requires
            1 <= i <= 6,
        ensures
            r.code() == i,
    {
        match i {
            1 => EventType::BCall,
            2 => EventType::Class,
            3 => EventType::Call,
            4 => EventType::Return,
            5 => EventType::BReturn,
            _ => EventType::End,
        }
    }

    /// The symbol the host language uses for this kind.
    pub fn symbol(&self) -> (r: &'static str)
        ensures
            r@ == symbol_of(*self),
    {
        match self {
            EventType::BCall => ":b_call",
            EventType::Class => ":class",
            EventType::Call => ":call",
            EventType::Return => ":return",
            EventType::BReturn => ":b_return",
            EventType::End => ":end",
        }
    }
}

pub open spec fn symbol_of(t: EventType) -> Seq<char> {
    match t {
        EventType::BCall => ":b_call"@,
        EventType::Class => ":class"@,
        EventType::Call => ":call"@,
        EventType::Return => ":return"@,
        EventType::BReturn => ":b_return"@,
        EventType::End => ":end"@,
    }
}

/// One observable occurrence that opens a frame.
pub enum Event {
    /// Block entry: source file and line.
    BCall(String, i32),
    /// Class definition: class name.
    Class(String),
    /// Method call: class name and method name.
    Call(String, String),
}

pub open spec fn is_white_space(c: char) -> bool {
    let u = c as u32;
    ||| 0x09 <= u <= 0x0D
    ||| u == 0x20
    ||| u == 0x85
    ||| u == 0xA0
    ||| u == 0x1680
    ||| 0x2000 <= u <= 0x200A
    ||| u == 0x2028
    ||| u == 0x2029
    ||| u == 0x202F
    ||| u == 0x205F
    ||| u == 0x3000
}

/// A character that ends the object name of a singleton class.
pub open spec fn is_name_stop(c: char) -> bool {
    is_white_space(c) || c == '>'
}

/// The end of the run of name characters of `c` that starts at `i`.
pub open spec fn name_end(c: Seq<char>, i: int) -> int
    decreases c.len() - i,
{
    if 0 <= i < c.len() && !is_name_stop(c[i]) {
        name_end(c, i + 1)
    } else {
        i
    }
}

/// Where the object name starts if `c` opens as a singleton class (`#<Class:`
/// with the `#` optional).
pub open spec fn singleton_name_start(c: Seq<char>) -> int {
    if c.len() > 0 && c[0] == '#' {
        8
    } else {
        7
    }
}

/// The object named by a singleton class: the non-empty run of characters
/// after `#<Class:` or `<Class:` up to white space or `>`.
pub open spec fn singleton_name(c: Seq<char>) -> Option<Seq<char>> {
    let b = singleton_name_start(c);
    if b <= c.len() && c.subrange(b - 7, b) == "<Class:"@ && name_end(c, b) > b {
        Some(c.subrange(b, name_end(c, b)))
    } else {
        None
    }
}

/// Key of a method call on a canonical class name: `Name.method` for a
/// class-level call, `Class#method` otherwise.
pub open spec fn call_key(class: Seq<char>, method: Seq<char>) -> Seq<char> {
    match singleton_name(class) {
        Some(n) => n + seq!['.'] + method,
        None => class + seq!['#'] + method,
    }
}

/// The end of `s[..e]` with trailing separators dropped.
pub open spec fn trim_separators(s: Seq<char>, e: int) -> int
    decreases e,
{
    if 0 < e <= s.len() && s[e - 1] == '/' {
        trim_separators(s, e - 1)
    } else {
        e
    }
}

/// The start of the path segment that ends at `e`.
pub open spec fn segment_start(s: Seq<char>, e: int) -> int
    decreases e,
{
    if 0 < e <= s.len() && s[e - 1] != '/' {
        segment_start(s, e - 1)
    } else {
        e
    }
}

/// The last two segments of a path joined by `/`, or the whole path where it
/// has fewer than two.
pub open spec fn short_location(f: Seq<char>) -> Seq<char> {
    let e1 = trim_separators(f, f.len() as int);
    let b1 = segment_start(f, e1);
    let e0 = trim_separators(f, b1);
    let b0 = segment_start(f, e0);
    if b0 < e0 {
        f.subrange(b0, e0) + seq!['/'] + f.subrange(b1, e1)
    } else {
        f
    }
}

pub open spec fn digit_char(d: int) -> char {
    if d == 0 {
        '0'
    } else if d == 1 {
        '1'
    } else if d == 2 {
        '2'
    } else if d == 3 {
        '3'
    } else if d == 4 {
        '4'
    } else if d == 5 {
        '5'
    } else if d == 6 {
        '6'
    } else if d == 7 {
        '7'
    } else if d == 8 {
        '8'
    } else {
        '9'
    }
}

/// Decimal digits of a natural number, without leading zeros.
pub open spec fn digits(n: nat) -> Seq<char>
    decreases n,
{
    if n < 10 {
        seq![digit_char(n as int)]
    } else {
        digits(n / 10) + seq![digit_char((n % 10) as int)]
    }
}

/// Decimal text of an integer, with a leading `-` when negative.
pub open spec fn decimal(n: int) -> Seq<char> {
    if n < 0 {
        seq!['-'] + digits((-n) as nat)
    } else {
        digits(n as nat)
    }
}

/// Key of a block entry: short location, a space, and the line number.
pub open spec fn block_key(file: Seq<char>, line: int) -> Seq<char> {
    short_location(file) + seq![' '] + decimal(line)
}

impl Event {
    /// The canonical call-site key of this event.
    pub open spec fn key(&self) -> Seq<char> {
        match self {
            Event::Call(class, method) => call_key(canonical(class@), method@),
            Event::Class(name) => canonical(name@),
            Event::BCall(file, line) => block_key(file@, *line as int),
        }
    }
}

fn is_white_space_char(c: char) -> (r: bool)
    ensures
        r == is_white_space(c),
{
    let u = c as u32;
    (0x09 <= u && u <= 0x0D) || u == 0x20 || u == 0x85 || u == 0xA0 || u == 0x1680 || (0x2000
        <= u && u <= 0x200A) || u == 0x2028 || u == 0x2029 || u == 0x202F || u == 0x205F || u
        == 0x3000
}

/// The object name of a singleton class, if `c` denotes one.
fn singleton_name_of(c: &str) -> (r: Option<String>)
    ensures
        match singleton_name(c@) {
            Some(n) => r is Some && r->0@ == n,
            None => r is None,
        },
{
    let n = c.unicode_len();
    let b: usize = if n > 0 && c.get_char(0) == '#' {
        8
    } else {
        7
    };
    if b > n {
        return None;
    }
    let opening = String::from_str(c.substring_char(b - 7, b));
    if !(opening == String::from_str("<Class:")) {
        return None;
    }
    let mut e: usize = b;
    while e < n && !(is_white_space_char(c.get_char(e)) || c.get_char(e) == '>')
        invariant
            b <= e <= n,
            n as int == c@.len(),
            name_end(c@, e as int) == name_end(c@, b as int),
        decreases n - e,
    {
        e = e + 1;
    }
    if e == b {
        None
    } else {
        Some(String::from_str(c.substring_char(b, e)))
    }
}

fn digit_text(d: u64) -> (r: &'static str)
    requires
        d < 10,
    ensures
        r@ == seq![digit_char(d as int)],
{
    proof {
        reveal_strlit("0");
        reveal_strlit("1");
        reveal_strlit("2");
        reveal_strlit("3");
        reveal_strlit("4");
        reveal_strlit("5");
        reveal_strlit("6");
        reveal_strlit("7");
        reveal_strlit("8");
        reveal_strlit("9");
    }
    let r = if d == 0 {
        "0"
    } else if d == 1 {
        "1"
    } else if d == 2 {
        "2"
    } else if d == 3 {
        "3"
    } else if d == 4 {
        "4"
    } else if d == 5 {
        "5"
    } else if d == 6 {
        "6"
    } else if d == 7 {
        "7"
    } else if d == 8 {
        "8"
    } else {
        "9"
    };
    assert(r@ =~= seq![digit_char(d as int)]);
    r
}

fn digits_text(n: u64) -> (r: String)
    ensures
        r@ == digits(n as nat),
    decreases n,
{
    if n < 10 {
        String::from_str(digit_text(n))
    } else {
        let mut r = digits_text(n / 10);
        r.append(digit_text(n % 10));
        r
    }
}

/// Decimal text of a line number.
fn decimal_text(n: i32) -> (r: String)
    ensures
        r@ == decimal(n as int),
{
    if n < 0 {
        let m: u64 = (0 - (n as i64)) as u64;
        let mut r = String::from_str("-");
        r.append(digits_text(m).as_str());
        proof {
            reveal_strlit("-");
        }
        assert(r@ =~= decimal(n as int));
        r
    } else {
        digits_text(n as u64)
    }
}

fn trim_separators_at(f: &str, e: usize) -> (r: usize)
    requires
        e <= f@.len(),
    ensures
        r as int == trim_separators(f@, e as int),
{
    let mut i = e;
    while i > 0 && f.get_char(i - 1) == '/'
        invariant
            i <= e <= f@.len(),
            trim_separators(f@, i as int) == trim_separators(f@, e as int),
        decreases i,
    {
        i = i - 1;
    }
    i
}

fn segment_start_at(f: &str, e: usize) -> (r: usize)
    requires
        e <= f@.len(),
    ensures
        r as int == segment_start(f@, e as int),
{
    let mut i = e;
    while i > 0 && f.get_char(i - 1) != '/'
        invariant
            i <= e <= f@.len(),
            segment_start(f@, i as int) == segment_start(f@, e as int),
        decreases i,
    {
        i = i - 1;
    }
    i
}

proof fn lemma_trim_bounds(s: Seq<char>, e: int)
    requires
        0 <= e <= s.len(),
    ensures
        0 <= trim_separators(s, e) <= e,
        0 <= segment_start(s, e) <= e,
    decreases e,
{
    if e > 0 {
        lemma_trim_bounds(s, e - 1);
    }
}

impl Event {
    /// The event that opens a frame for a hook report of kind `kind`, built
    /// from the fields that kind uses; `None` for the kinds that close one.
    pub fn for_entry(
        kind: EventType,
        trace_file: String,
        trace_line: i32,
        class_name: String,
        method_id: String,
        receiver: String,
    ) -> (r: Option<Event>)
        ensures
            r is Some <==> kind.opens_frame(),
            kind is BCall ==> r == Some(Event::BCall(trace_file, trace_line)),
            kind is Class ==> r == Some(Event::Class(receiver)),
            kind is Call ==> r == Some(Event::Call(class_name, method_id)),
    {
        match kind {
            EventType::BCall => Some(Event::BCall(trace_file, trace_line)),
            EventType::Class => Some(Event::Class(receiver)),
            EventType::Call => Some(Event::Call(class_name, method_id)),
            _ => None,
        }
    }

    /// The canonical call-site key of this event; see [`Event::key`].
    pub fn format(&self) -> (r: String)
        ensures
            r@ == self.key(),
    {
        match self {
            Event::Call(class, method) => Event::format_call(class.as_str(), method.as_str()),
            Event::Class(name) => canonicalize(name.as_str()),
            Event::BCall(file, line) => Event::format_bcall(file.as_str(), *line),
        }
    }

    /// Key of a block entry at `line` of `file`.
    fn format_bcall(file: &str, line: i32) -> (r: String)
        ensures
            r@ == block_key(file@, line as int),
    {
        let n = file.unicode_len();
        proof {
            lemma_trim_bounds(file@, n as int);
        }
        let e1 = trim_separators_at(file, n);
        proof {
            lemma_trim_bounds(file@, e1 as int);
        }
        let b1 = segment_start_at(file, e1);
        proof {
            lemma_trim_bounds(file@, b1 as int);
        }
        let e0 = trim_separators_at(file, b1);
        proof {
            lemma_trim_bounds(file@, e0 as int);
        }
        let b0 = segment_start_at(file, e0);
        let mut r = if b0 < e0 {
            let mut t = String::from_str(file.substring_char(b0, e0));
            t.append("/");
            t.append(file.substring_char(b1, e1));
            t
        } else {
            String::from_str(file)
        };
        r.append(" ");
        let digits = decimal_text(line);
        r.append(digits.as_str());
        proof {
            reveal_strlit("/");
            reveal_strlit(" ");
        }
        assert(r@ =~= block_key(file@, line as int));
        r
    }

    /// Key of a call of `method` on `class`, with the class name canonicalized
    /// before the singleton-class form is recognized.
    fn format_call(class: &str, method: &str) -> (r: String)
        ensures
            r@ == call_key(canonical(class@), method@),
    {
        let class_str = canonicalize(class);
        match singleton_name_of(class_str.as_str()) {
            Some(name) => {
                let mut r = name;
                r.append(".");
                r.append(method);
                proof {
                    reveal_strlit(".");
                }
                assert(r@ =~= call_key(canonical(class@), method@));
                r
            },
            None => {
                let mut r = class_str;
                r.append("#");
                r.append(method);
                proof {
                    reveal_strlit("#");
                }
                assert(r@ =~= call_key(canonical(class@), method@));
                r
            },
        }
    }
}

} // verus!
