use vstd::prelude::*;
use crate::errors::Error;
use crate::text::{chars_of, decimal, push_text, u64_text};

verus! {

/// An ASCII decimal digit.
pub open spec fn is_digit(c: char) -> bool {
    '0' <= c && c <= '9'
}

/// An ASCII whitespace character, as may follow a unit letter.
pub open spec fn is_space(c: char) -> bool {
    c == ' ' || c == '\t' || c == '\n' || c == '\r' || c == '\x0B' || c == '\x0C'
}

/// A unit letter: hours, minutes or seconds, in either case.
pub open spec fn is_unit(c: char) -> bool {
    c == 'h' || c == 'H' || c == 'm' || c == 'M' || c == 's' || c == 'S'
}

/// The number that a run of decimal digits denotes.
pub open spec fn digits_value(d: Seq<char>) -> nat
    decreases d.len(),
{
    if d.len() == 0 {
        0
    } else {
        digits_value(d.drop_last()) * 10 + ((d.last() as u32) - ('0' as u32)) as nat
    }
}

/// The end of the run of digits that starts at `i`.
pub open spec fn digit_end(s: Seq<char>, i: int) -> int
    decreases s.len() - i,
{
    if 0 <= i < s.len() && is_digit(s[i]) {
        digit_end(s, i + 1)
    } else {
        i
    }
}

/// Adds `v` to the component of `t` that the unit letter `u` names.
pub open spec fn add_unit(u: char, v: nat, t: (nat, nat, nat)) -> (nat, nat, nat) {
    if u == 'h' || u == 'H' {
        (t.0 + v, t.1, t.2)
    } else if u == 'm' || u == 'M' {
        (t.0, t.1 + v, t.2)
    } else {
        (t.0, t.1, t.2 + v)
    }
}

pub proof fn lemma_digit_end_bounds(s: Seq<char>, i: int)
    requires
        0 <= i <= s.len(),
    ensures
        i <= digit_end(s, i) <= s.len(),
        forall|k: int| i <= k < digit_end(s, i) ==> is_digit(#[trigger] s[k]),
    decreases s.len() - i,
{
    if i < s.len() && is_digit(s[i]) {
        lemma_digit_end_bounds(s, i + 1);
    }
}

/// The unit form read from position `i` to the end: one or more tokens, each
/// a run of digits and a unit letter, optionally followed by one whitespace
/// character. Repeated units add up. The totals are (hours, minutes, seconds).
pub open spec fn unit_form_from(s: Seq<char>, i: int) -> Option<(nat, nat, nat)>
    decreases s.len() - i,
{
    if !(0 <= i < s.len()) {
        None
    } else {
        proof {
            lemma_digit_end_bounds(s, i);
        }
        let j = digit_end(s, i);
        if j == i || j >= s.len() || !is_unit(s[j]) {
            None
        } else {
            let v = digits_value(s.subrange(i, j));
            let k = if j + 1 < s.len() && is_space(s[j + 1]) {
                j + 2
            } else {
                j + 1
            };
            if k >= s.len() {
                Some(add_unit(s[j], v, (0, 0, 0)))
            } else {
                match unit_form_from(s, k) {
                    Some(t) => Some(add_unit(s[j], v, t)),
                    None => None,
                }
            }
        }
    }
}

/// The colon form `H:M:S`: three runs of digits separated by colons, and
/// nothing else.
pub open spec fn colon_form(s: Seq<char>) -> Option<(nat, nat, nat)> {
    let a = digit_end(s, 0);
    let b = digit_end(s, a + 1);
    let c = digit_end(s, b + 1);
    if 0 < a && a < s.len() && s[a] == ':' && a + 1 < b && b < s.len() && s[b] == ':' && b + 1
        < c && c == s.len() {
        Some(
            (
                digits_value(s.subrange(0, a)),
                digits_value(s.subrange(a + 1, b)),
                digits_value(s.subrange(b + 1, c)),
            ),
        )
    } else {
        None
    }
}

/// What a session duration reads as: the unit form, else the colon form.
pub open spec fn duration_spec(s: Seq<char>) -> Option<(nat, nat, nat)> {
    if unit_form_from(s, 0) is Some {
        unit_form_from(s, 0)
    } else {
        colon_form(s)
    }
}

/// Component-wise sum of two (hours, minutes, seconds) triples.
pub open spec fn sum3(a: (nat, nat, nat), b: (nat, nat, nat)) -> (nat, nat, nat) {
    (a.0 + b.0, a.1 + b.1, a.2 + b.2)
}

proof fn lemma_digit_end_shift(p: Seq<char>, s: Seq<char>, i: int)
    requires
        0 <= i <= s.len(),
    ensures
        digit_end(p + s, p.len() + i) == p.len() + digit_end(s, i),
    decreases s.len() - i,
{
    if i < s.len() && is_digit(s[i]) {
        lemma_digit_end_shift(p, s, i + 1);
    }
}

/// Parsing after a prefix reads as parsing the rest alone.
proof fn lemma_unit_form_shift(p: Seq<char>, s: Seq<char>, i: int)
    requires
        0 <= i <= s.len(),
    ensures
        unit_form_from(p + s, p.len() + i) == unit_form_from(s, i),
    decreases s.len() - i,
{
    let q = p + s;
    if i < s.len() {
        lemma_digit_end_shift(p, s, i);
        lemma_digit_end_bounds(s, i);
        let j = digit_end(s, i);
        assert(q.subrange(p.len() + i, p.len() + j) =~= s.subrange(i, j));
        if j > i && j < s.len() && is_unit(s[j]) {
            let k = if j + 1 < s.len() && is_space(s[j + 1]) {
                j + 2
            } else {
                j + 1
            };
            if k < s.len() {
                lemma_unit_form_shift(p, s, k);
            }
        }
    }
}

/// A run of digits that ends inside `s1` ends at the same place in `q`,
/// which begins with `s1`.
proof fn lemma_digit_end_prefix(s1: Seq<char>, q: Seq<char>, i: int)
    requires
        0 <= i <= s1.len(),
        s1.len() <= q.len(),
        q.subrange(0, s1.len() as int) == s1,
        digit_end(s1, i) < s1.len(),
    ensures
        digit_end(q, i) == digit_end(s1, i),
    decreases s1.len() - i,
{
    assert(q[i] == q.subrange(0, s1.len() as int)[i]);
    if i < s1.len() && is_digit(s1[i]) {
        lemma_digit_end_prefix(s1, q, i + 1);
    }
}

proof fn lemma_unit_form_join(s1: Seq<char>, s2: Seq<char>, i: int)
    requires
        0 <= i < s1.len(),
        unit_form_from(s1, i) is Some,
        unit_form_from(s2, 0) is Some,
        is_unit(s1.last()),
    ensures
        unit_form_from(s1 + " "@ + s2, i) == Some(
            sum3(unit_form_from(s1, i).unwrap(), unit_form_from(s2, 0).unwrap()),
        ),
    decreases s1.len() - i,
{
    let q = s1 + " "@ + s2;
    let p = s1 + " "@;
    assert(q =~= p + s2);
    assert(q.subrange(0, s1.len() as int) =~= s1);
    assert(" "@.len() == 1) by {
        reveal_strlit(" ");
    }
    assert(q[s1.len() as int] == ' ') by {
        reveal_strlit(" ");
    }
    lemma_digit_end_bounds(s1, i);
    let j = digit_end(s1, i);
    lemma_digit_end_prefix(s1, q, i);
    assert(q.subrange(i, j) =~= s1.subrange(i, j));
    assert(q[j] == s1[j]);
    let v = digits_value(s1.subrange(i, j));
    let b = unit_form_from(s2, 0).unwrap();
    if j + 1 < s1.len() {
        assert(q[j + 1] == s1[j + 1]);
        let k = if is_space(s1[j + 1]) {
            j + 2
        } else {
            j + 1
        };
        if k < s1.len() {
            lemma_unit_form_join(s1, s2, k);
        } else {
            assert(k == s1.len());
            assert(is_space(s1[j + 1]));
            assert(s1.last() == s1[j + 1]);
        }
    } else {
        assert(j + 1 == s1.len());
        lemma_unit_form_shift(p, s2, 0);
        assert(p.len() == s1.len() + 1);
    }
}

/// Unit-form durations join: two of them separated by a space read as the
/// sum of the two, so the order and repetition of tokens only add up.
pub proof fn lemma_unit_form_concat(s1: Seq<char>, s2: Seq<char>)
    requires
        unit_form_from(s1, 0) is Some,
        unit_form_from(s2, 0) is Some,
        is_unit(s1.last()),
    ensures
        unit_form_from(s1 + " "@ + s2, 0) == Some(
            sum3(unit_form_from(s1, 0).unwrap(), unit_form_from(s2, 0).unwrap()),
        ),
{
    lemma_unit_form_join(s1, s2, 0);
}

/// The order of unit-form durations does not matter: either order of two
/// of them reads as the same sum.
pub proof fn lemma_unit_form_commute(s1: Seq<char>, s2: Seq<char>)
    requires
        unit_form_from(s1, 0) is Some,
        unit_form_from(s2, 0) is Some,
        is_unit(s1.last()),
        is_unit(s2.last()),
    ensures
        unit_form_from(s1 + " "@ + s2, 0) == unit_form_from(s2 + " "@ + s1, 0),
        unit_form_from(s1 + " "@ + s2, 0) == Some(
            sum3(unit_form_from(s1, 0).unwrap(), unit_form_from(s2, 0).unwrap()),
        ),
{
    lemma_unit_form_concat(s1, s2);
    lemma_unit_form_concat(s2, s1);
}

/// Seconds in the given hours, minutes and seconds.
pub open spec fn seconds_of(h: int, m: int, s: int) -> int {
    h * 3600 + m * 60 + s
}

/// Seconds in the given hours, minutes and seconds.
pub fn to_seconds(hours: u64, minutes: u64, seconds: u64) -> (r: u64)
    requires
        seconds_of(hours as int, minutes as int, seconds as int) <= u64::MAX,
    ensures
        r == seconds_of(hours as int, minutes as int, seconds as int),
{
    (hours * 60 * 60) + (minutes * 60) + seconds
}

/// A session duration as hours, minutes and seconds, each as written.
#[derive(Debug, Clone, Copy, PartialEq, Eq, Structural)]
pub struct DurationParser {
    pub hours: u64,
    pub minutes: u64,
    pub seconds: u64,
}

/// What reading a session duration gives: `SessionDurationParserError` for
/// text of neither form; else the totals, or `ParseIntError` where the
/// duration in seconds does not fit `u64`.
pub open spec fn parse_result(text: Seq<char>) -> Result<DurationParser, Error> {
    match duration_spec(text) {
        None => Err(Error::SessionDurationParserError),
        Some(t) => if seconds_of(t.0 as int, t.1 as int, t.2 as int) <= u64::MAX {
            Ok(DurationParser { hours: t.0 as u64, minutes: t.1 as u64, seconds: t.2 as u64 })
        } else {
            Err(Error::ParseIntError)
        },
    }
}

/// Reading two unit-form durations joined by a space, in either order,
/// gives their field-wise sum, where its duration in seconds fits `u64`.
pub proof fn lemma_parse_concat(s1: Seq<char>, s2: Seq<char>)
    requires
        unit_form_from(s1, 0) is Some,
        unit_form_from(s2, 0) is Some,
        is_unit(s1.last()),
        is_unit(s2.last()),
        parse_result(s1) matches Ok(x) && parse_result(s2) matches Ok(y) && seconds_of(
            x.hours + y.hours,
            x.minutes + y.minutes,
            x.seconds + y.seconds,
        ) <= u64::MAX,
    ensures
        parse_result(s1 + " "@ + s2) == parse_result(s2 + " "@ + s1),
        parse_result(s1 + " "@ + s2) matches Ok(z) && parse_result(s1) matches Ok(x) && parse_result(
            s2,
        ) matches Ok(y) && z.hours == x.hours + y.hours && z.minutes == x.minutes + y.minutes
            && z.seconds == x.seconds + y.seconds,
{
    lemma_unit_form_commute(s1, s2);
}

impl Default for DurationParser {
    fn default() -> (r: DurationParser)
        ensures
            r == (DurationParser { hours: 0, minutes: 0, seconds: 0 }),
    {
        DurationParser { hours: 0, minutes: 0, seconds: 0 }
    }
}

/// Reads the run of digits at `i`: its end, and its value unless it exceeds
/// `u64` (then `overflow`).
fn scan_number(cs: &Vec<char>, i: usize) -> (r: (usize, u64, bool))
    requires
        i <= cs@.len(),
    ensures
        r.0 == digit_end(cs@, i as int),
        i <= r.0 <= cs@.len(),
        !r.2 ==> r.1 == digits_value(cs@.subrange(i as int, r.0 as int)),
        r.2 ==> digits_value(cs@.subrange(i as int, r.0 as int)) > u64::MAX,
{
    let mut k: usize = i;
    let mut value: u64 = 0;
    let mut overflow = false;
    let ghost mut exact: nat = 0;
    while k < cs.len() && '0' <= cs[k] && cs[k] <= '9'
        invariant
            i <= k <= cs@.len(),
            digit_end(cs@, i as int) == digit_end(cs@, k as int),
            exact == digits_value(cs@.subrange(i as int, k as int)),
            !overflow ==> value == exact,
            overflow ==> exact > u64::MAX,
        decreases cs@.len() - k,
    {
        let d = (cs[k] as u32) - ('0' as u32);
        proof {
            let sub = cs@.subrange(i as int, k + 1);
            assert(sub.drop_last() =~= cs@.subrange(i as int, k as int));
            exact = exact * 10 + d as nat;
        }
        if !overflow {
            match value.checked_mul(10) {
                Some(t) => match t.checked_add(d as u64) {
                    Some(v) => {
                        value = v;
                    },
                    None => {
                        overflow = true;
                    },
                },
                None => {
                    overflow = true;
                },
            }
        }
        k = k + 1;
    }
    proof {
        lemma_digit_end_bounds(cs@, k as int);
    }
    (k, value, overflow)
}

/// `a + v` where `v` may be beyond `u64`: the sum, or `overflow`.
fn add_checked(a: u64, a_over: bool, v: u64, v_over: bool) -> (r: (u64, bool))
    ensures
        !r.1 ==> !a_over && !v_over && r.0 == a + v,
        !a_over && !v_over && a + v <= u64::MAX ==> !r.1,
{
    if a_over || v_over {
        (0, true)
    } else {
        match a.checked_add(v) {
            Some(t) => (t, false),
            None => (0, true),
        }
    }
}

pub open spec fn shift(r: Option<(nat, nat, nat)>, a: (nat, nat, nat)) -> Option<(nat, nat, nat)> {
    match r {
        Some(t) => Some((t.0 + a.0, t.1 + a.1, t.2 + a.2)),
        None => None,
    }
}

pub open spec fn exceeds(t: (nat, nat, nat)) -> bool {
    t.0 > u64::MAX || t.1 > u64::MAX || t.2 > u64::MAX
}

/// Reads the unit form: whether it matched, the totals, and whether one of
/// them exceeds `u64`.
fn parse_hms_duration(cs: &Vec<char>) -> (r: (bool, u64, u64, u64, bool))
    ensures
        r.0 == unit_form_from(cs@, 0) is Some,
        r.0 && !r.4 ==> unit_form_from(cs@, 0) == Some((r.1 as nat, r.2 as nat, r.3 as nat)),
        r.0 && r.4 ==> exceeds(unit_form_from(cs@, 0).unwrap()),
{
    if cs.len() == 0 {
        return (false, 0, 0, 0, false);
    }
    let mut pos: usize = 0;
    let mut h: u64 = 0;
    let mut m: u64 = 0;
    let mut s: u64 = 0;
    let mut overflow = false;
    let ghost mut acc: (nat, nat, nat) = (0, 0, 0);
    loop
        invariant
            pos < cs@.len(),
            unit_form_from(cs@, 0) == shift(unit_form_from(cs@, pos as int), acc),
            !overflow ==> h == acc.0 && m == acc.1 && s == acc.2,
            overflow ==> exceeds(acc),
        decreases cs@.len() - pos,
    {
        let (j, v, v_over) = scan_number(cs, pos);
        if j == pos || j >= cs.len() {
            return (false, 0, 0, 0, false);
        }
        let u = cs[j];
        if !(u == 'h' || u == 'H' || u == 'm' || u == 'M' || u == 's' || u == 'S') {
            return (false, 0, 0, 0, false);
        }
        let ghost gv = digits_value(cs@.subrange(pos as int, j as int));
        let k: usize = if j + 1 < cs.len() && (cs[j + 1] == ' ' || cs[j + 1] == '\t' || cs[j + 1]
            == '\n' || cs[j + 1] == '\r' || cs[j + 1] == '\x0B' || cs[j + 1] == '\x0C') {
            j + 2
        } else {
            j + 1
        };
        proof {
            acc = add_unit(u, gv, acc);
        }
        if u == 'h' || u == 'H' {
            let (t, o) = add_checked(h, overflow, v, v_over);
            h = t;
            overflow = o;
        } else if u == 'm' || u == 'M' {
            let (t, o) = add_checked(m, overflow, v, v_over);
            m = t;
            overflow = o;
        } else {
            let (t, o) = add_checked(s, overflow, v, v_over);
            s = t;
            overflow = o;
        }
        if k >= cs.len() {
            return (true, h, m, s, overflow);
        }
        pos = k;
    }
}

/// Reads the colon form: whether it matched, the three numbers, and whether
/// one of them exceeds `u64`.
fn parse_colon_duration(cs: &Vec<char>) -> (r: (bool, u64, u64, u64, bool))
    ensures
        r.0 == colon_form(cs@) is Some,
        r.0 && !r.4 ==> colon_form(cs@) == Some((r.1 as nat, r.2 as nat, r.3 as nat)),
        r.0 && r.4 ==> exceeds(colon_form(cs@).unwrap()),
{
    let (a, h, h_over) = scan_number(cs, 0);
    if !(0 < a && a < cs.len() && cs[a] == ':') {
        return (false, 0, 0, 0, false);
    }
    let (b, m, m_over) = scan_number(cs, a + 1);
    if !(a + 1 < b && b < cs.len() && cs[b] == ':') {
        return (false, 0, 0, 0, false);
    }
    let (c, s, s_over) = scan_number(cs, b + 1);
    if !(b + 1 < c && c == cs.len()) {
        return (false, 0, 0, 0, false);
    }
    (true, h, m, s, h_over || m_over || s_over)
}

impl DurationParser {
    /// Every value read from text has a number of seconds that fits `u64`.
    pub open spec fn wf(&self) -> bool {
        seconds_of(self.hours as int, self.minutes as int, self.seconds as int) <= u64::MAX
    }

    /// Reads a session duration, either in the unit form (`"1h 30m 10s"`,
    /// where repeated units add up) or in the colon form (`"01:30:10"`).
    /// Text of neither form is refused with `SessionDurationParserError`;
    /// text whose duration in seconds does not fit `u64` with `ParseIntError`.
    pub fn parse(text: &str) -> (r: Result<DurationParser, Error>)
        ensures
            r == parse_result(text@),
            r matches Ok(d) ==> d.wf(),
    {
        let cs = chars_of(text);
        let (found, h, m, s, overflow) = parse_hms_duration(&cs);
        let (found, h, m, s, overflow) = if found {
            (found, h, m, s, overflow)
        } else {
            parse_colon_duration(&cs)
        };
        if !found {
            return Err(Error::SessionDurationParserError);
        }
        if overflow {
            return Err(Error::ParseIntError);
        }
        let total = match h.checked_mul(3600) {
            Some(hs) => match m.checked_mul(60) {
                Some(ms) => match hs.checked_add(ms) {
                    Some(t) => t.checked_add(s),
                    None => None,
                },
                None => None,
            },
            None => None,
        };
        match total {
            Some(_) => Ok(DurationParser { hours: h, minutes: m, seconds: s }),
            None => Err(Error::ParseIntError),
        }
    }

    /// The duration in seconds.
    pub fn to_seconds(&self) -> (r: u64)
        requires
            self.wf(),
        ensures
            r == seconds_of(self.hours as int, self.minutes as int, self.seconds as int),
    {
        to_seconds(self.hours, self.minutes, self.seconds)
    }

    /// The duration in words: `"1 hour(s) 30 minute(s) 0 second(s)"`.
    pub fn to_string(&self) -> (r: String)
        ensures
            r@ == decimal(self.hours as nat) + " hour(s) "@ + decimal(self.minutes as nat)
                + " minute(s) "@ + decimal(self.seconds as nat) + " second(s)"@,
    {
        let mut r = u64_text(self.hours);
        push_text(&mut r, " hour(s) ");
        push_text(&mut r, u64_text(self.minutes).as_str());
        push_text(&mut r, " minute(s) ");
        push_text(&mut r, u64_text(self.seconds).as_str());
        push_text(&mut r, " second(s)");
        r
    }
}

impl std::str::FromStr for DurationParser {
    type Err = Error;

    /// Reads a session duration (see `DurationParser::parse`).
    fn from_str(s: &str) -> (r: Result<Self, Self::Err>)
        ensures
            r == parse_result(s@),
            r matches Ok(d) ==> d.wf(),
    {
        DurationParser::parse(s)
    }
}

/// A number of seconds in days, hours, minutes and seconds:
/// `"1 days 2 hour(s) 3 minute(s) 4 second(s)"`.
pub open spec fn duration_text(duration: u64) -> Seq<char> {
    decimal((duration / 86400) as nat) + " days "@ + decimal(((duration / 3600) % 24) as nat)
        + " hour(s) "@ + decimal(((duration / 60) % 60) as nat) + " minute(s) "@ + decimal(
        (duration % 60) as nat,
    ) + " second(s)"@
}

/// A number of seconds in days, hours, minutes and seconds:
/// `"1 days 2 hour(s) 3 minute(s) 4 second(s)"`.
pub fn format_duration(duration: u64) -> (r: String)
    ensures
        r@ == duration_text(duration),
{
    let mut r = u64_text(duration / 86400);
    push_text(&mut r, " days ");
    push_text(&mut r, u64_text((duration / 3600) % 24).as_str());
    push_text(&mut r, " hour(s) ");
    push_text(&mut r, u64_text((duration / 60) % 60).as_str());
    push_text(&mut r, " minute(s) ");
    push_text(&mut r, u64_text(duration % 60).as_str());
    push_text(&mut r, " second(s)");
    r
}

} // verus!
