//! Provenance serialization: the descriptor's canonical JSON text and its
//! parser. The serialized form is a single JSON object holding every field,
//! with the label and timestamp as quoted strings and the run parameters as
//! bare integers; parsing the canonical text recovers every field exactly.

use vstd::prelude::*;
use vstd::string::StringExecFns;
use crate::descriptor::ExpConfig;
use crate::strutil::{dec_digits, digit_char, push_char, push_decimal};
use crate::timestamp::Timestamp;

verus! {

/// Whether a character is a decimal digit.
pub open spec fn is_digit(c: char) -> bool {
    ||| c == '0'
    ||| c == '1'
    ||| c == '2'
    ||| c == '3'
    ||| c == '4'
    ||| c == '5'
    ||| c == '6'
    ||| c == '7'
    ||| c == '8'
    ||| c == '9'
}

/// The numeric value of a decimal digit character.
pub open spec fn digit_val(c: char) -> nat {
    if c == '0' {
        0
    } else if c == '1' {
        1
    } else if c == '2' {
        2
    } else if c == '3' {
        3
    } else if c == '4' {
        4
    } else if c == '5' {
        5
    } else if c == '6' {
        6
    } else if c == '7' {
        7
    } else if c == '8' {
        8
    } else {
        9
    }
}

/// JSON string escaping of one character: quotes and backslashes get a
/// backslash prefix, everything else stands as itself.
pub open spec fn esc_char(c: char) -> Seq<char> {
    if c == '"' || c == '\\' {
        seq!['\\', c]
    } else {
        seq![c]
    }
}

/// JSON string escaping of a whole text.
pub open spec fn esc(s: Seq<char>) -> Seq<char>
    decreases s.len(),
{
    if s.len() == 0 {
        Seq::empty()
    } else {
        esc_char(s[0]) + esc(s.subrange(1, s.len() as int))
    }
}

/// The object opener up to the label value: `{"exp":"`.
pub open spec fn lit_open() -> Seq<char> {
    seq!['{', '"', 'e', 'x', 'p', '"', ':', '"']
}

/// The key of the per-iteration seconds: `,"time":`.
pub open spec fn lit_time() -> Seq<char> {
    seq![',', '"', 't', 'i', 'm', 'e', '"', ':']
}

/// The key of the iteration count: `,"iterations":`.
pub open spec fn lit_iter() -> Seq<char> {
    seq![',', '"', 'i', 't', 'e', 'r', 'a', 't', 'i', 'o', 'n', 's', '"', ':']
}

/// The key of the timestamp value: `,"timestamp":"`.
pub open spec fn lit_ts() -> Seq<char> {
    seq![',', '"', 't', 'i', 'm', 'e', 's', 't', 'a', 'm', 'p', '"', ':', '"']
}

/// The object closer: `"}`.
pub open spec fn lit_close() -> Seq<char> {
    seq!['"', '}']
}

/// The canonical serialized text of a descriptor.
pub open spec fn ser(d: ExpConfig) -> Seq<char> {
    lit_open() + esc(d.exp@) + seq!['"'] + lit_time() + dec_digits(d.time as nat) + lit_iter()
        + dec_digits(d.iterations as nat) + lit_ts() + d.timestamp.text() + lit_close()
}

/// Escaping a text one character longer appends that character's escape.
pub proof fn lemma_esc_snoc(t: Seq<char>, c: char)
    ensures
        esc(t.push(c)) == esc(t) + esc_char(c),
    decreases t.len(),
{
    if t.len() == 0 {
        assert(t.push(c)[0] == c);
        let e = t.push(c).subrange(1, t.push(c).len() as int);
        assert(e =~= Seq::<char>::empty());
        assert(esc(e) == Seq::<char>::empty());
        assert(esc(t) == Seq::<char>::empty());
        assert(esc(t.push(c)) == esc_char(c) + esc(e));
        assert(esc_char(c) + esc(e) =~= esc_char(c));
        assert(esc(t) + esc_char(c) =~= esc_char(c));
    } else {
        let t2 = t.subrange(1, t.len() as int);
        assert(t.push(c).subrange(1, t.push(c).len() as int) =~= t2.push(c));
        lemma_esc_snoc(t2, c);
        assert(t.push(c)[0] == t[0]);
        assert(esc(t.push(c)) == esc_char(t[0]) + (esc(t2) + esc_char(c)));
        assert(esc_char(t[0]) + (esc(t2) + esc_char(c)) =~= (esc_char(t[0]) + esc(t2)) + esc_char(
            c,
        ));
    }
}

/// Renders the JSON escape of a text.
pub fn escape_json(s: &str) -> (r: String)
    ensures
        r@ == esc(s@),
{
    let n = s.unicode_len();
    let mut out = String::new();
    let mut i: usize = 0;
    while i < n
        invariant
            i <= n,
            n == s@.len(),
            out@ == esc(s@.take(i as int)),
        decreases n - i,
    {
        let c = s.get_char(i);
        proof {
            lemma_esc_snoc(s@.take(i as int), c);
            assert(s@.take(i as int).push(c) =~= s@.take(i as int + 1));
        }
        if c == '"' || c == '\\' {
            push_char(&mut out, '\\');
            push_char(&mut out, c);
            assert(out@ =~= esc(s@.take(i as int)) + esc_char(c));
        } else {
            push_char(&mut out, c);
            assert(out@ =~= esc(s@.take(i as int)) + esc_char(c));
        }
        i += 1;
    }
    proof {
        assert(s@.take(n as int) =~= s@);
    }
    out
}

/// Relates the literal key texts to their spec character sequences.
pub proof fn lemma_literal_views()
    ensures
        "{\"exp\":\""@ == lit_open(),
        ",\"time\":"@ == lit_time(),
        ",\"iterations\":"@ == lit_iter(),
        ",\"timestamp\":\""@ == lit_ts(),
        "\"}"@ == lit_close(),
{
    reveal_strlit("{\"exp\":\"");
    reveal_strlit(",\"time\":");
    reveal_strlit(",\"iterations\":");
    reveal_strlit(",\"timestamp\":\"");
    reveal_strlit("\"}");
    assert("{\"exp\":\""@ =~= lit_open());
    assert(",\"time\":"@ =~= lit_time());
    assert(",\"iterations\":"@ =~= lit_iter());
    assert(",\"timestamp\":\""@ =~= lit_ts());
    assert("\"}"@ =~= lit_close());
}

/// Renders the canonical serialized text of a descriptor.
pub fn serialize_descriptor(d: &ExpConfig) -> (r: String)
    requires
        d.wf(),
    ensures
        r@ == ser(*d),
{
    proof {
        lemma_literal_views();
    }
    let mut out = String::new();
    out.append("{\"exp\":\"");
    let escaped = escape_json(d.exp.as_str());
    out.append(escaped.as_str());
    push_char(&mut out, '"');
    out.append(",\"time\":");
    push_decimal(&mut out, d.time);
    out.append(",\"iterations\":");
    push_decimal(&mut out, d.iterations);
    out.append(",\"timestamp\":\"");
    let ts = d.timestamp.render();
    out.append(ts.as_str());
    out.append("\"}");
    assert(out@ =~= ser(*d));
    out
}

/// Whether the text holds the given literal at position `i`.
pub open spec fn match_lit(s: Seq<char>, i: int, lit: Seq<char>) -> bool {
    &&& 0 <= i
    &&& i + lit.len() <= s.len()
    &&& s.subrange(i, i + lit.len() as int) == lit
}

/// Scans a JSON string body from position `i` up to its closing quote,
/// undoing the escaping; yields the decoded text and the position after the
/// closing quote.
pub open spec fn scan_str(s: Seq<char>, i: int) -> Option<(Seq<char>, int)>
    decreases s.len() - i,
{
    if i < 0 || i >= s.len() {
        None
    } else if s[i] == '"' {
        Some((Seq::empty(), i + 1))
    } else if s[i] == '\\' {
        if i + 1 < s.len() && (s[i + 1] == '"' || s[i + 1] == '\\') {
            match scan_str(s, i + 2) {
                None => None,
                Some(p) => Some((seq![s[i + 1]] + p.0, p.1)),
            }
        } else {
            None
        }
    } else {
        match scan_str(s, i + 1) {
            None => None,
            Some(p) => Some((seq![s[i]] + p.0, p.1)),
        }
    }
}

/// Takes the run of decimal digit characters starting at position `i`.
pub open spec fn scan_digits(s: Seq<char>, i: int) -> (Seq<char>, int)
    decreases s.len() - i,
{
    if 0 <= i && i < s.len() && is_digit(s[i]) {
        let p = scan_digits(s, i + 1);
        (seq![s[i]] + p.0, p.1)
    } else {
        (Seq::empty(), i)
    }
}

/// The numeric value of a digit run, most significant first.
pub open spec fn dec_val(digs: Seq<char>) -> nat
    decreases digs.len(),
{
    if digs.len() == 0 {
        0
    } else {
        dec_val(digs.drop_last()) * 10 + digit_val(digs.last())
    }
}

/// Scans a number at position `i`: a nonempty digit run whose value fits a
/// machine word.
pub open spec fn scan_u64(s: Seq<char>, i: int) -> Option<(u64, int)> {
    let (digs, j) = scan_digits(s, i);
    if digs.len() == 0 {
        None
    } else if dec_val(digs) > u64::MAX {
        None
    } else {
        Some((dec_val(digs) as u64, j))
    }
}

/// Scans the fixed-width timestamp text at position `i` and checks its
/// calendar ranges.
pub open spec fn scan_ts(s: Seq<char>, i: int) -> Option<(Timestamp, int)> {
    if i < 0 || i + 19 > s.len() {
        None
    } else if !(is_digit(s[i]) && is_digit(s[i + 1]) && is_digit(s[i + 2]) && is_digit(s[i + 3])
        && s[i + 4] == '-' && is_digit(s[i + 5]) && is_digit(s[i + 6]) && s[i + 7] == '-'
        && is_digit(s[i + 8]) && is_digit(s[i + 9]) && s[i + 10] == 'T' && is_digit(s[i + 11])
        && is_digit(s[i + 12]) && s[i + 13] == ':' && is_digit(s[i + 14]) && is_digit(s[i + 15])
        && s[i + 16] == ':' && is_digit(s[i + 17]) && is_digit(s[i + 18])) {
        None
    } else {
        let t = Timestamp {
            year: (digit_val(s[i]) * 1000 + digit_val(s[i + 1]) * 100 + digit_val(s[i + 2]) * 10
                + digit_val(s[i + 3])) as u64,
            month: (digit_val(s[i + 5]) * 10 + digit_val(s[i + 6])) as u64,
            day: (digit_val(s[i + 8]) * 10 + digit_val(s[i + 9])) as u64,
            hour: (digit_val(s[i + 11]) * 10 + digit_val(s[i + 12])) as u64,
            minute: (digit_val(s[i + 14]) * 10 + digit_val(s[i + 15])) as u64,
            second: (digit_val(s[i + 17]) * 10 + digit_val(s[i + 18])) as u64,
        };
        if t.wf() {
            Some((t, i + 19))
        } else {
            None
        }
    }
}

/// The result of parsing a serialized descriptor: its decoded label and its
/// three remaining fields.
pub open spec fn spec_parse(s: Seq<char>) -> Option<(Seq<char>, u64, u64, Timestamp)> {
    if !match_lit(s, 0, lit_open()) {
        None
    } else {
        match scan_str(s, 8) {
            None => None,
            Some((exp, i1)) => if !match_lit(s, i1, lit_time()) {
                None
            } else {
                match scan_u64(s, i1 + 8) {
                    None => None,
                    Some((time, i2)) => if !match_lit(s, i2, lit_iter()) {
                        None
                    } else {
                        match scan_u64(s, i2 + 14) {
                            None => None,
                            Some((iterations, i3)) => if !match_lit(s, i3, lit_ts()) {
                                None
                            } else {
                                match scan_ts(s, i3 + 14) {
                                    None => None,
                                    Some((t, i4)) => if match_lit(s, i4, lit_close()) && i4 + 2
                                        == s.len() {
                                        Some((exp, time, iterations, t))
                                    } else {
                                        None
                                    },
                                }
                            },
                        }
                    },
                }
            },
        }
    }
}

/// Whether the text holds the given literal at position `i`, decided by
/// comparing characters.
fn lit_at(s: &str, i: usize, lit: &str) -> (r: bool)
    requires
        i <= s@.len(),
    ensures
        r == match_lit(s@, i as int, lit@),
{
    let n = s.unicode_len();
    let m = lit.unicode_len();
    if m > n - i {
        return false;
    }
    let mut k: usize = 0;
    while k < m
        invariant
            k <= m,
            i + m <= n,
            n == s@.len(),
            m == lit@.len(),
            forall|t: int| 0 <= t < k ==> s@[i + t] == lit@[t],
        decreases m - k,
    {
        if s.get_char(i + k) != lit.get_char(k) {
            proof {
                if match_lit(s@, i as int, lit@) {
                    assert(s@.subrange(i as int, i + m as int)[k as int] == lit@[k as int]);
                }
            }
            return false;
        }
        k += 1;
    }
    proof {
        assert(s@.subrange(i as int, i + m as int) =~= lit@);
    }
    true
}

/// Scans a JSON string body, undoing the escaping, as `scan_str` describes.
fn take_string(s: &str, i: usize) -> (r: Option<(String, usize)>)
    requires
        i <= s@.len(),
    ensures
        match r {
            Some(p) => {
                &&& scan_str(s@, i as int) == Some((p.0@, p.1 as int))
                &&& i < p.1 <= s@.len()
            },
            None => scan_str(s@, i as int) is None,
        },
    decreases s@.len() - i,
{
    let n = s.unicode_len();
    if i >= n {
        return None;
    }
    let c = s.get_char(i);
    if c == '"' {
        Some((String::new(), i + 1))
    } else if c == '\\' {
        if i + 1 < n {
            let c2 = s.get_char(i + 1);
            if c2 == '"' || c2 == '\\' {
                match take_string(s, i + 2) {
                    None => None,
                    Some((rest, j)) => {
                        let mut out = String::new();
                        push_char(&mut out, c2);
                        out.append(rest.as_str());
                        assert(out@ =~= seq![s@[i + 1]] + rest@);
                        Some((out, j))
                    },
                }
            } else {
                None
            }
        } else {
            None
        }
    } else {
        match take_string(s, i + 1) {
            None => None,
            Some((rest, j)) => {
                let mut out = String::new();
                push_char(&mut out, c);
                out.append(rest.as_str());
                assert(out@ =~= seq![s@[i as int]] + rest@);
                Some((out, j))
            },
        }
    }
}

/// How far a digit run reaches and what stands in it.
pub proof fn lemma_scan_digits_props(s: Seq<char>, i: int)
    requires
        0 <= i <= s.len(),
    ensures
        ({
            let (digs, j) = scan_digits(s, i);
            &&& i <= j <= s.len()
            &&& j == i + digs.len()
            &&& forall|k: int| i <= k < j ==> is_digit(s[k]) && s[k] == digs[k - i]
            &&& j == s.len() || !is_digit(s[j])
        }),
    decreases s.len() - i,
{
    let (digs, j) = scan_digits(s, i);
    if i < s.len() && is_digit(s[i]) {
        lemma_scan_digits_props(s, i + 1);
        let (d2, j2) = scan_digits(s, i + 1);
        assert(digs == seq![s[i]] + d2);
        assert forall|k: int| i <= k < j implies is_digit(s[k]) && s[k] == digs[k - i] by {
            if k > i {
                assert(s[k] == d2[k - (i + 1)]);
                assert(digs[k - i] == d2[k - i - 1]);
            }
        }
    }
}

/// The value of a digit run's prefix never exceeds the whole run's value.
pub proof fn lemma_dec_val_take_le(digs: Seq<char>, k: int)
    requires
        0 <= k <= digs.len(),
    ensures
        dec_val(digs.take(k)) <= dec_val(digs),
    decreases digs.len() - k,
{
    if k < digs.len() {
        lemma_dec_val_take_le(digs, k + 1);
        assert(digs.take(k + 1).drop_last() =~= digs.take(k));
        assert(dec_val(digs.take(k + 1)) == dec_val(digs.take(k)) * 10 + digit_val(
            digs.take(k + 1).last(),
        ));
    } else {
        assert(digs.take(k) =~= digs);
    }
}

/// The decimal digit value of a character, if it is one.
fn digit_of(c: char) -> (r: Option<u64>)
    ensures
        match r {
            Some(d) => is_digit(c) && d as nat == digit_val(c) && d < 10,
            None => !is_digit(c),
        },
{
    if c == '0' {
        Some(0)
    } else if c == '1' {
        Some(1)
    } else if c == '2' {
        Some(2)
    } else if c == '3' {
        Some(3)
    } else if c == '4' {
        Some(4)
    } else if c == '5' {
        Some(5)
    } else if c == '6' {
        Some(6)
    } else if c == '7' {
        Some(7)
    } else if c == '8' {
        Some(8)
    } else if c == '9' {
        Some(9)
    } else {
        None
    }
}

/// Scans a number, as `scan_u64` describes.
fn take_u64(s: &str, i: usize) -> (r: Option<(u64, usize)>)
    requires
        i <= s@.len(),
    ensures
        match r {
            Some(p) => {
                &&& scan_u64(s@, i as int) == Some((p.0, p.1 as int))
                &&& i <= p.1 <= s@.len()
            },
            None => scan_u64(s@, i as int) is None,
        },
{
    proof {
        lemma_scan_digits_props(s@, i as int);
    }
    let ghost digs = scan_digits(s@, i as int).0;
    let ghost end = scan_digits(s@, i as int).1;
    let n = s.unicode_len();
    let mut j: usize = i;
    let mut acc: u64 = 0;
    loop
        invariant
            i <= j,
            j as int <= end,
            end <= n,
            n == s@.len(),
            end == i + digs.len(),
            scan_digits(s@, i as int) == (digs, end),
            forall|k: int| i <= k < end ==> is_digit(s@[k]) && s@[k] == digs[k - i],
            end == s@.len() || !is_digit(s@[end as int]),
            acc as nat == dec_val(digs.take(j - i)),
        ensures
            i <= j,
            j as int == end,
            acc as nat == dec_val(digs),
        decreases end - j,
    {
        if j >= n {
            proof {
                assert(j as int == end);
                assert(digs.take(j - i) =~= digs);
            }
            break ;
        }
        let c = s.get_char(j);
        match digit_of(c) {
            None => {
                proof {
                    if (j as int) < end {
                        assert(is_digit(s@[j as int]));
                    }
                    assert(j as int == end);
                    assert(digs.take(j - i) =~= digs);
                }
                break ;
            },
            Some(d) => {
                proof {
                    if (j as int) >= end {
                        assert(!is_digit(s@[j as int]));
                    }
                }
                proof {
                    assert(digs.take(j - i + 1).drop_last() =~= digs.take(j - i));
                    assert(digs.take(j - i + 1).last() == digs[j - i]);
                    assert(dec_val(digs.take(j - i + 1)) == dec_val(digs.take(j - i)) * 10
                        + digit_val(digs[j - i]));
                    assert(digs[j - i] == s@[j as int]);
                }
                if acc > (u64::MAX - d) / 10 {
                    proof {
                        let m = (u64::MAX - d) as nat;
                        assert(m == 10 * (m / 10) + m % 10);
                        assert(acc as nat * 10 + d as nat > u64::MAX);
                        assert(dec_val(digs.take(j - i + 1)) > u64::MAX);
                        lemma_dec_val_take_le(digs, j - i + 1);
                        assert(dec_val(digs) > u64::MAX);
                        assert(digs.len() > 0);
                    }
                    return None;
                }
                proof {
                    let m = (u64::MAX - d) as nat;
                    assert(m == 10 * (m / 10) + m % 10);
                    assert(acc as nat * 10 + d as nat <= u64::MAX);
                }
                acc = acc * 10 + d;
                j += 1;
            },
        }
    }
    if j == i {
        proof {
            assert(digs.len() == 0);
        }
        None
    } else {
        Some((acc, j))
    }
}

/// Scans the timestamp text, as `scan_ts` describes.
fn take_ts(s: &str, i: usize) -> (r: Option<(Timestamp, usize)>)
    requires
        i <= s@.len(),
    ensures
        match r {
            Some(p) => {
                &&& scan_ts(s@, i as int) == Some((p.0, p.1 as int))
                &&& p.0.wf()
                &&& i < p.1 <= s@.len()
            },
            None => scan_ts(s@, i as int) is None,
        },
{
    let n = s.unicode_len();
    if n - i < 19 {
        return None;
    }
    let d0 = match digit_of(s.get_char(i)) {
        None => return None,
        Some(d) => d,
    };
    let d1 = match digit_of(s.get_char(i + 1)) {
        None => return None,
        Some(d) => d,
    };
    let d2 = match digit_of(s.get_char(i + 2)) {
        None => return None,
        Some(d) => d,
    };
    let d3 = match digit_of(s.get_char(i + 3)) {
        None => return None,
        Some(d) => d,
    };
    if s.get_char(i + 4) != '-' {
        return None;
    }
    let d5 = match digit_of(s.get_char(i + 5)) {
        None => return None,
        Some(d) => d,
    };
    let d6 = match digit_of(s.get_char(i + 6)) {
        None => return None,
        Some(d) => d,
    };
    if s.get_char(i + 7) != '-' {
        return None;
    }
    let d8 = match digit_of(s.get_char(i + 8)) {
        None => return None,
        Some(d) => d,
    };
    let d9 = match digit_of(s.get_char(i + 9)) {
        None => return None,
        Some(d) => d,
    };
    if s.get_char(i + 10) != 'T' {
        return None;
    }
    let d11 = match digit_of(s.get_char(i + 11)) {
        None => return None,
        Some(d) => d,
    };
    let d12 = match digit_of(s.get_char(i + 12)) {
        None => return None,
        Some(d) => d,
    };
    if s.get_char(i + 13) != ':' {
        return None;
    }
    let d14 = match digit_of(s.get_char(i + 14)) {
        None => return None,
        Some(d) => d,
    };
    let d15 = match digit_of(s.get_char(i + 15)) {
        None => return None,
        Some(d) => d,
    };
    if s.get_char(i + 16) != ':' {
        return None;
    }
    let d17 = match digit_of(s.get_char(i + 17)) {
        None => return None,
        Some(d) => d,
    };
    let d18 = match digit_of(s.get_char(i + 18)) {
        None => return None,
        Some(d) => d,
    };
    let year = d0 * 1000 + d1 * 100 + d2 * 10 + d3;
    let month = d5 * 10 + d6;
    let day = d8 * 10 + d9;
    let hour = d11 * 10 + d12;
    let minute = d14 * 10 + d15;
    let second = d17 * 10 + d18;
    match Timestamp::new(year, month, day, hour, minute, second) {
        None => None,
        Some(t) => Some((t, i + 19)),
    }
}

/// Parses the canonical serialized text of a descriptor, as `spec_parse`
/// describes: the exact text `serialize_descriptor` renders, and nothing
/// else, yields a descriptor, with every field recovered.
pub fn parse_descriptor(s: &str) -> (r: Option<ExpConfig>)
    ensures
        match r {
            Some(d) => {
                &&& spec_parse(s@) == Some((d.exp@, d.time, d.iterations, d.timestamp))
                &&& d.wf()
            },
            None => spec_parse(s@) is None,
        },
{
    proof {
        lemma_literal_views();
    }
    let n = s.unicode_len();
    if !lit_at(s, 0, "{\"exp\":\"") {
        return None;
    }
    let (exp, i1) = match take_string(s, 8) {
        None => return None,
        Some(p) => p,
    };
    if !lit_at(s, i1, ",\"time\":") {
        return None;
    }
    let (time, i2) = match take_u64(s, i1 + 8) {
        None => return None,
        Some(p) => p,
    };
    if !lit_at(s, i2, ",\"iterations\":") {
        return None;
    }
    let (iterations, i3) = match take_u64(s, i2 + 14) {
        None => return None,
        Some(p) => p,
    };
    if !lit_at(s, i3, ",\"timestamp\":\"") {
        return None;
    }
    let (timestamp, i4) = match take_ts(s, i3 + 14) {
        None => return None,
        Some(p) => p,
    };
    if !lit_at(s, i4, "\"}") {
        return None;
    }
    if i4 + 2 != n {
        return None;
    }
    Some(ExpConfig { exp, time, iterations, timestamp })
}

/// A subrange cut at a component's position out of a three-part
/// concatenation yields that component.
pub proof fn lemma_subrange_at(pre: Seq<char>, mid: Seq<char>, post: Seq<char>)
    ensures
        (pre + mid + post).subrange(pre.len() as int, (pre.len() + mid.len()) as int) == mid,
{
    assert((pre + mid + post).subrange(pre.len() as int, (pre.len() + mid.len()) as int) =~= mid);
}

/// Scanning a JSON string body over the escape of a text followed by a
/// closing quote recovers the text exactly.
pub proof fn lemma_scan_esc(s: Seq<char>, i: int, x: Seq<char>)
    requires
        0 <= i,
        i + esc(x).len() + 1 <= s.len(),
        s.subrange(i, i + esc(x).len() + 1) == esc(x) + seq!['"'],
    ensures
        scan_str(s, i) == Some((x, i + esc(x).len() + 1)),
    decreases x.len(),
{
    let e = esc(x);
    let sub = s.subrange(i, i + e.len() + 1);
    if x.len() == 0 {
        assert(e.len() == 0);
        assert(s[i] == sub[0]);
        assert(s[i] == '"');
        assert(x =~= Seq::<char>::empty());
    } else {
        let c = x[0];
        let x2 = x.subrange(1, x.len() as int);
        assert(e == esc_char(c) + esc(x2));
        let k = esc_char(c).len() as int;
        assert(e.len() == k + esc(x2).len());
        assert forall|t: int| 0 <= t < esc(x2).len() + 1 implies s.subrange(
            i + k,
            i + e.len() + 1,
        )[t] == (esc(x2) + seq!['"'])[t] by {
            assert(s.subrange(i + k, i + e.len() + 1)[t] == s[i + k + t]);
            assert(s[i + k + t] == sub[k + t]);
            assert(sub[k + t] == (e + seq!['"'])[k + t]);
            if k + t < e.len() {
                assert((e + seq!['"'])[k + t] == e[k + t]);
                assert(e[k + t] == esc(x2)[t]);
            }
        }
        assert(s.subrange(i + k, i + e.len() + 1) =~= esc(x2) + seq!['"']);
        if c == '"' || c == '\\' {
            lemma_scan_esc(s, i + 2, x2);
            assert(s[i] == sub[0]);
            assert(sub[0] == e[0]);
            assert(s[i] == '\\');
            assert(s[i + 1] == sub[1]);
            assert(s[i + 1] == c);
            assert(seq![s[i + 1]] + x2 =~= x);
        } else {
            lemma_scan_esc(s, i + 1, x2);
            assert(s[i] == sub[0]);
            assert(s[i] == c);
            assert(seq![s[i]] + x2 =~= x);
        }
    }
}

/// Taking the digit run over a known digit text followed by a non-digit
/// yields that text exactly.
pub proof fn lemma_scan_digits_exact(s: Seq<char>, i: int, digs: Seq<char>)
    requires
        0 <= i,
        i + digs.len() < s.len(),
        s.subrange(i, i + digs.len() as int) == digs,
        forall|k: int| 0 <= k < digs.len() ==> is_digit(digs[k]),
        !is_digit(s[i + digs.len()]),
    ensures
        scan_digits(s, i) == (digs, i + digs.len()),
    decreases digs.len(),
{
    if digs.len() == 0 {
        assert(digs =~= Seq::<char>::empty());
    } else {
        assert(s[i] == s.subrange(i, i + digs.len() as int)[0]);
        assert(s[i] == digs[0]);
        let d2 = digs.subrange(1, digs.len() as int);
        assert forall|t: int| 0 <= t < d2.len() implies s.subrange(i + 1, i + 1 + d2.len())[t]
            == d2[t] by {
            assert(s.subrange(i + 1, i + 1 + d2.len())[t] == s[i + 1 + t]);
            assert(s[i + 1 + t] == s.subrange(i, i + digs.len() as int)[1 + t]);
        }
        assert(s.subrange(i + 1, i + 1 + d2.len()) =~= d2);
        lemma_scan_digits_exact(s, i + 1, d2);
        assert(seq![s[i]] + d2 =~= digs);
    }
}

/// Every character of a canonical decimal rendering is a digit, and there
/// is at least one.
pub proof fn lemma_dec_digits_digits(n: nat)
    ensures
        dec_digits(n).len() >= 1,
        forall|k: int| 0 <= k < dec_digits(n).len() ==> is_digit(dec_digits(n)[k]),
    decreases n,
{
    if n < 10 {
    } else {
        lemma_dec_digits_digits(n / 10);
    }
}

/// Reading a digit character back yields the digit.
pub proof fn lemma_digit_char_val(m: nat)
    requires
        m < 10,
    ensures
        digit_val(digit_char(m)) == m,
{
}

/// The value of a canonical decimal rendering is the number itself.
pub proof fn lemma_dec_val_of_digits(n: nat)
    ensures
        dec_val(dec_digits(n)) == n,
    decreases n,
{
    if n < 10 {
        lemma_digit_char_val(n);
        let one = dec_digits(n);
        assert(one.len() == 1);
        assert(one.drop_last() =~= Seq::<char>::empty());
        assert(dec_val(one.drop_last()) == 0);
        assert(one.last() == digit_char(n));
    } else {
        lemma_dec_val_of_digits(n / 10);
        lemma_digit_char_val(n % 10);
        assert(dec_digits(n) == dec_digits(n / 10).push(digit_char(n % 10)));
        assert(dec_digits(n).drop_last() =~= dec_digits(n / 10));
        assert(dec_digits(n).last() == digit_char(n % 10));
    }
}

/// Scanning the timestamp text of a well-formed timestamp recovers it
/// exactly.
pub proof fn lemma_scan_ts_exact(s: Seq<char>, i: int, t: Timestamp)
    requires
        0 <= i,
        i + 19 <= s.len(),
        t.wf(),
        s.subrange(i, i + 19) == t.text(),
    ensures
        scan_ts(s, i) == Some((t, i + 19)),
{
    let tt = t.text();
    let y = t.year as nat;
    let mo = t.month as nat;
    let d = t.day as nat;
    let h = t.hour as nat;
    let mi = t.minute as nat;
    let sec = t.second as nat;
    assert(tt.len() == 19);
    assert forall|k: int| 0 <= k < 19 implies s[i + k] == tt[k] by {
        assert(s.subrange(i, i + 19)[k] == s[i + k]);
    }
    assert(tt[0] == digit_char(y / 1000 % 10));
    assert(tt[1] == digit_char(y / 100 % 10));
    assert(tt[2] == digit_char(y / 10 % 10));
    assert(tt[3] == digit_char(y % 10));
    assert(tt[4] == '-');
    assert(tt[5] == digit_char(mo / 10 % 10));
    assert(tt[6] == digit_char(mo % 10));
    assert(tt[7] == '-');
    assert(tt[8] == digit_char(d / 10 % 10));
    assert(tt[9] == digit_char(d % 10));
    assert(tt[10] == 'T');
    assert(tt[11] == digit_char(h / 10 % 10));
    assert(tt[12] == digit_char(h % 10));
    assert(tt[13] == ':');
    assert(tt[14] == digit_char(mi / 10 % 10));
    assert(tt[15] == digit_char(mi % 10));
    assert(tt[16] == ':');
    assert(tt[17] == digit_char(sec / 10 % 10));
    assert(tt[18] == digit_char(sec % 10));
    lemma_digit_char_val(y / 1000 % 10);
    lemma_digit_char_val(y / 100 % 10);
    lemma_digit_char_val(y / 10 % 10);
    lemma_digit_char_val(y % 10);
    lemma_digit_char_val(mo / 10 % 10);
    lemma_digit_char_val(mo % 10);
    lemma_digit_char_val(d / 10 % 10);
    lemma_digit_char_val(d % 10);
    lemma_digit_char_val(h / 10 % 10);
    lemma_digit_char_val(h % 10);
    lemma_digit_char_val(mi / 10 % 10);
    lemma_digit_char_val(mi % 10);
    lemma_digit_char_val(sec / 10 % 10);
    lemma_digit_char_val(sec % 10);
    lemma_four_digit_split(y);
    lemma_two_digit_split(mo);
    lemma_two_digit_split(d);
    lemma_two_digit_split(h);
    lemma_two_digit_split(mi);
    lemma_two_digit_split(sec);
}

/// A number below ten thousand is the weighted sum of its four decimal
/// digits.
pub proof fn lemma_four_digit_split(y: nat)
    requires
        y < 10000,
    ensures
        (y / 1000 % 10) * 1000 + (y / 100 % 10) * 100 + (y / 10 % 10) * 10 + y % 10 == y,
{
    let b1 = y / 10;
    let b2 = b1 / 10;
    let b3 = b2 / 10;
    vstd::arithmetic::div_mod::lemma_div_denominator(y as int, 10, 10);
    vstd::arithmetic::div_mod::lemma_div_denominator(y as int, 100, 10);
    assert(b2 == y / 100);
    assert(b3 == y / 1000);
    assert(y == b1 * 10 + y % 10);
    assert(b1 == b2 * 10 + b1 % 10);
    assert(b2 == b3 * 10 + b2 % 10);
    assert(b3 < 10);
    assert(b3 % 10 == b3);
}

/// A number below one hundred is the weighted sum of its two decimal
/// digits.
pub proof fn lemma_two_digit_split(m: nat)
    requires
        m < 100,
    ensures
        (m / 10 % 10) * 10 + m % 10 == m,
{
    assert(m / 10 < 10);
    assert(m / 10 % 10 == m / 10);
    assert(m == (m / 10) * 10 + m % 10);
}

/// Round trip: parsing the canonical serialized text of a well-formed
/// descriptor recovers every one of its fields exactly.
#[verifier::rlimit(100)]
pub proof fn lemma_round_trip(d: ExpConfig)
    requires
        d.wf(),
    ensures
        spec_parse(ser(d)) == Some((d.exp@, d.time, d.iterations, d.timestamp)),
{
    let s = ser(d);
    let e = esc(d.exp@);
    let q = seq!['"'];
    let td = dec_digits(d.time as nat);
    let id = dec_digits(d.iterations as nat);
    let tt = d.timestamp.text();
    let i1 = (8 + e.len() + 1) as int;
    let i2 = (i1 + 8 + td.len()) as int;
    let i3 = (i2 + 14 + id.len()) as int;
    let i4 = (i3 + 14 + 19) as int;
    assert(tt.len() == 19);
    lemma_dec_digits_digits(d.time as nat);
    lemma_dec_digits_digits(d.iterations as nat);
    assert(s.len() == i4 + 2);
    assert(s =~= Seq::<char>::empty() + lit_open() + (e + q + lit_time() + td + lit_iter() + id
        + lit_ts() + tt + lit_close()));
    lemma_subrange_at(
        Seq::<char>::empty(),
        lit_open(),
        e + q + lit_time() + td + lit_iter() + id + lit_ts() + tt + lit_close(),
    );
    assert(match_lit(s, 0, lit_open()));
    assert(s =~= lit_open() + (e + q) + (lit_time() + td + lit_iter() + id + lit_ts() + tt
        + lit_close()));
    lemma_subrange_at(
        lit_open(),
        e + q,
        lit_time() + td + lit_iter() + id + lit_ts() + tt + lit_close(),
    );
    lemma_scan_esc(s, 8, d.exp@);
    assert(scan_str(s, 8) == Some((d.exp@, i1 as int)));
    assert(s =~= (lit_open() + e + q) + lit_time() + (td + lit_iter() + id + lit_ts() + tt
        + lit_close()));
    lemma_subrange_at(
        lit_open() + e + q,
        lit_time(),
        td + lit_iter() + id + lit_ts() + tt + lit_close(),
    );
    assert(match_lit(s, i1 as int, lit_time()));
    assert(s =~= (lit_open() + e + q + lit_time()) + td + (lit_iter() + id + lit_ts() + tt
        + lit_close()));
    lemma_subrange_at(
        lit_open() + e + q + lit_time(),
        td,
        lit_iter() + id + lit_ts() + tt + lit_close(),
    );
    assert(s =~= (lit_open() + e + q + lit_time() + td) + lit_iter() + (id + lit_ts() + tt
        + lit_close()));
    lemma_subrange_at(
        lit_open() + e + q + lit_time() + td,
        lit_iter(),
        id + lit_ts() + tt + lit_close(),
    );
    assert(match_lit(s, i2 as int, lit_iter()));
    assert(s[i2 as int] == s.subrange(i2 as int, i2 + 14) [0]);
    assert(s[i2 as int] == ',');
    lemma_scan_digits_exact(s, i1 + 8, td);
    lemma_dec_val_of_digits(d.time as nat);
    assert(scan_u64(s, i1 + 8) == Some((d.time, i2 as int)));
    assert(s =~= (lit_open() + e + q + lit_time() + td + lit_iter()) + id + (lit_ts() + tt
        + lit_close()));
    lemma_subrange_at(
        lit_open() + e + q + lit_time() + td + lit_iter(),
        id,
        lit_ts() + tt + lit_close(),
    );
    assert(s =~= (lit_open() + e + q + lit_time() + td + lit_iter() + id) + lit_ts() + (tt
        + lit_close()));
    lemma_subrange_at(
        lit_open() + e + q + lit_time() + td + lit_iter() + id,
        lit_ts(),
        tt + lit_close(),
    );
    assert(match_lit(s, i3 as int, lit_ts()));
    assert(s[i3 as int] == s.subrange(i3 as int, i3 + 14) [0]);
    assert(s[i3 as int] == ',');
    lemma_scan_digits_exact(s, i2 + 14, id);
    lemma_dec_val_of_digits(d.iterations as nat);
    assert(scan_u64(s, i2 + 14) == Some((d.iterations, i3 as int)));
    assert(s =~= (lit_open() + e + q + lit_time() + td + lit_iter() + id + lit_ts()) + tt
        + lit_close());
    lemma_subrange_at(lit_open() + e + q + lit_time() + td + lit_iter() + id + lit_ts(), tt,
        lit_close());
    lemma_scan_ts_exact(s, i3 + 14, d.timestamp);
    assert(scan_ts(s, i3 + 14) == Some((d.timestamp, i4 as int)));
    assert(s =~= (lit_open() + e + q + lit_time() + td + lit_iter() + id + lit_ts() + tt)
        + lit_close() + Seq::<char>::empty());
    lemma_subrange_at(lit_open() + e + q + lit_time() + td + lit_iter() + id + lit_ts() + tt,
        lit_close(), Seq::<char>::empty());
    assert(match_lit(s, i4 as int, lit_close()));
}

/// The serialized text is a collision-resistant identity: two well-formed
/// descriptors with the same serialized text agree on every field.
pub proof fn lemma_ser_injective(d1: ExpConfig, d2: ExpConfig)
    requires
        d1.wf(),
        d2.wf(),
        ser(d1) == ser(d2),
    ensures
        d1.exp@ == d2.exp@,
        d1.time == d2.time,
        d1.iterations == d2.iterations,
        d1.timestamp == d2.timestamp,
{
    lemma_round_trip(d1);
    lemma_round_trip(d2);
}

} // verus!
