//! The persistence format: a JSON array of
//! `{"description": string, "length": seconds, "time_left": seconds}`
//! records, with a verified encoder, a verified parser, and a proof that
//! parsing inverts encoding.

use vstd::prelude::*;
use vstd::string::StringExecFns;

use crate::strutil::push_char;
use crate::timer::RecordView;
use crate::timer::SerializeableTimerParts;

verus! {

// ---------------------------------------------------------------------------
// Decimal digits
// ---------------------------------------------------------------------------

pub open spec fn is_digit_char(c: char) -> bool {
    48 <= c as u32 && c as u32 <= 57
}

pub open spec fn digit_val(c: char) -> int {
    c as u32 - 48
}

pub open spec fn digit_char(d: int) -> char {
    if d == 0 {
        '0'
    } else if d == 1 {
        '1'
    } else if d == 2 {
        '2'
    } else if d == 3 {
        '3'
    } else if d == 4 {
        '4'
    } else if d == 5 {
        '5'
    } else if d == 6 {
        '6'
    } else if d == 7 {
        '7'
    } else if d == 8 {
        '8'
    } else {
        '9'
    }
}

/// The decimal digit string of `n`, most significant digit first, with no
/// leading zeroes (a single `'0'` for zero).
pub open spec fn dec_digits(n: nat) -> Seq<char>
    decreases n,
{
    if n < 10 {
        seq![digit_char(n as int)]
    } else {
        dec_digits(n / 10).push(digit_char((n % 10) as int))
    }
}

/// The value of a digit string, read most significant digit first.
pub open spec fn digits_value(ds: Seq<char>) -> int
    decreases ds.len(),
{
    if ds.len() == 0 {
        0
    } else {
        digits_value(ds.drop_last()) * 10 + digit_val(ds.last())
    }
}

pub proof fn lemma_digit_char_val(d: int)
    requires
        0 <= d <= 9,
    ensures
        digit_val(digit_char(d)) == d,
        is_digit_char(digit_char(d)),
{
}

pub proof fn lemma_dec_digits_are_digits(n: nat)
    ensures
        dec_digits(n).len() >= 1,
        forall|i: int|
            0 <= i < dec_digits(n).len() ==> is_digit_char(#[trigger] dec_digits(n)[i]),
    decreases n,
{
    if n < 10 {
        lemma_digit_char_val(n as int);
    } else {
        lemma_dec_digits_are_digits(n / 10);
        lemma_digit_char_val((n % 10) as int);
    }
}

/// Law: reading the decimal digit string of `n` back as a number yields `n`.
pub proof fn lemma_digits_value_of_dec_digits(n: nat)
    ensures
        digits_value(dec_digits(n)) == n,
    decreases n,
{
    if n < 10 {
        lemma_digit_char_val(n as int);
        let ds = dec_digits(n);
        assert(ds =~= seq![digit_char(n as int)]);
        assert(ds.len() == 1);
        assert(ds.drop_last() =~= Seq::<char>::empty());
        assert(digits_value(ds.drop_last()) == 0);
        assert(ds.last() == digit_char(n as int));
        assert(digits_value(ds) == 0 * 10 + digit_val(digit_char(n as int)));
    } else {
        lemma_digits_value_of_dec_digits(n / 10);
        lemma_digit_char_val((n % 10) as int);
        let ds = dec_digits(n);
        assert(ds == dec_digits(n / 10).push(digit_char((n % 10) as int)));
        assert(ds.len() == dec_digits(n / 10).len() + 1);
        assert(ds.drop_last() =~= dec_digits(n / 10));
        assert(ds.last() == digit_char((n % 10) as int));
        assert(digits_value(ds) == digits_value(dec_digits(n / 10)) * 10 + digit_val(
            digit_char((n % 10) as int),
        ));
        assert(digits_value(ds) == (n / 10) * 10 + (n % 10));
        vstd::arithmetic::div_mod::lemma_fundamental_div_mod(n as int, 10);
        assert(n == 10 * (n as int / 10) + n as int % 10);
    }
}

fn digit_char_of(d: u64) -> (c: char)
    requires
        d < 10,
    ensures
        c == digit_char(d as int),
{
    match d {
        0 => '0',
        1 => '1',
        2 => '2',
        3 => '3',
        4 => '4',
        5 => '5',
        6 => '6',
        7 => '7',
        8 => '8',
        _ => '9',
    }
}

/// Append the decimal digit string of `n` to `out`.
pub fn append_u64(out: &mut String, n: u64)
    ensures
        final(out)@ == old(out)@ + dec_digits(n as nat),
{
    let mut rev: Vec<char> = Vec::new();
    let mut m: u64 = n;
    while m >= 10
        invariant
            dec_digits(n as nat) == dec_digits(m as nat) + rev@.reverse(),
        decreases m,
    {
        let ghost prev = rev@;
        rev.push(digit_char_of(m % 10));
        proof {
            assert(rev@.reverse() =~= seq![digit_char((m % 10) as int)] + prev.reverse());
            assert(dec_digits(m as nat) =~= dec_digits((m / 10) as nat) + seq![
                digit_char((m % 10) as int),
            ]);
            assert(dec_digits((m / 10) as nat) + rev@.reverse() =~= dec_digits(m as nat)
                + prev.reverse());
        }
        m = m / 10;
    }
    let ghost prev = rev@;
    rev.push(digit_char_of(m));
    proof {
        assert(rev@.reverse() =~= seq![digit_char(m as int)] + prev.reverse());
        assert(dec_digits(m as nat) =~= seq![digit_char(m as int)]);
        assert(dec_digits(n as nat) =~= rev@.reverse());
    }
    let total: usize = rev.len();
    let mut i: usize = total;
    while i > 0
        invariant
            total == rev@.len(),
            i <= total,
            rev@.reverse() == dec_digits(n as nat),
            out@ == old(out)@ + dec_digits(n as nat).subrange(0, total - i),
        decreases i,
    {
        i = i - 1;
        push_char(out, rev[i]);
        proof {
            assert(rev@[i as int] == rev@.reverse()[total - 1 - i]);
            assert(out@ =~= old(out)@ + dec_digits(n as nat).subrange(0, total - i));
        }
    }
    proof {
        assert(dec_digits(n as nat).subrange(0, total as int) =~= dec_digits(n as nat));
    }
}

/// The decimal digit string of `n` as a fresh string.
pub fn u64_to_string(n: u64) -> (s: String)
    ensures
        s@ == dec_digits(n as nat),
{
    let mut s = String::new();
    append_u64(&mut s, n);
    proof {
        assert(s@ =~= dec_digits(n as nat));
    }
    s
}

// ---------------------------------------------------------------------------
// The encoded shape of a record sequence
// ---------------------------------------------------------------------------

pub open spec fn lit_description() -> Seq<char> {
    seq!['"', 'd', 'e', 's', 'c', 'r', 'i', 'p', 't', 'i', 'o', 'n', '"']
}

pub open spec fn lit_length() -> Seq<char> {
    seq!['"', 'l', 'e', 'n', 'g', 't', 'h', '"']
}

pub open spec fn lit_time_left() -> Seq<char> {
    seq!['"', 't', 'i', 'm', 'e', '_', 'l', 'e', 'f', 't', '"']
}

/// How one description character appears inside a JSON string: quotes and
/// backslashes get a backslash escape, every other character stands for
/// itself.
pub open spec fn escape_char(c: char) -> Seq<char> {
    if c == '"' {
        seq!['\\', '"']
    } else if c == '\\' {
        seq!['\\', '\\']
    } else {
        seq![c]
    }
}

pub open spec fn escape_str(s: Seq<char>) -> Seq<char>
    decreases s.len(),
{
    if s.len() == 0 {
        Seq::<char>::empty()
    } else {
        escape_char(s[0]) + escape_str(s.drop_first())
    }
}

pub proof fn lemma_escape_push(s: Seq<char>, c: char)
    ensures
        escape_str(s.push(c)) == escape_str(s) + escape_char(c),
    decreases s.len(),
{
    if s.len() == 0 {
        assert(s.push(c)[0] == c);
        assert(s.push(c).drop_first() =~= Seq::<char>::empty());
        assert(escape_str(Seq::<char>::empty()) == Seq::<char>::empty());
        assert(escape_str(s.push(c)) =~= escape_char(c));
        assert(escape_str(s) + escape_char(c) =~= escape_char(c));
    } else {
        lemma_escape_push(s.drop_first(), c);
        assert(s.push(c).drop_first() =~= s.drop_first().push(c));
        assert(s.push(c)[0] == s[0]);
        assert(escape_str(s.push(c)) == escape_char(s[0]) + (escape_str(s.drop_first())
            + escape_char(c)));
        assert(escape_char(s[0]) + (escape_str(s.drop_first()) + escape_char(c)) =~= (escape_char(
            s[0],
        ) + escape_str(s.drop_first())) + escape_char(c));
    }
}

/// The encoded form of one record: an object with the description string and
/// the two durations in seconds, in that key order, with no padding.
pub open spec fn encode_record(r: RecordView) -> Seq<char> {
    seq!['{'] + lit_description() + seq![':'] + seq!['"'] + escape_str(r.description) + seq!['"']
        + seq![','] + lit_length() + seq![':'] + dec_digits(r.length as nat) + seq![',']
        + lit_time_left() + seq![':'] + dec_digits(r.time_left as nat) + seq!['}']
}

/// The encoded records after the first, each preceded by a comma.
pub open spec fn encode_tail(rs: Seq<RecordView>) -> Seq<char>
    decreases rs.len(),
{
    if rs.len() == 0 {
        Seq::<char>::empty()
    } else {
        seq![','] + encode_record(rs[0]) + encode_tail(rs.drop_first())
    }
}

/// The encoded form of a whole record sequence: a JSON array.
pub open spec fn encode_records(rs: Seq<RecordView>) -> Seq<char> {
    if rs.len() == 0 {
        seq!['[', ']']
    } else {
        seq!['['] + encode_record(rs[0]) + encode_tail(rs.drop_first()) + seq![']']
    }
}

pub proof fn lemma_encode_tail_push(rs: Seq<RecordView>, r: RecordView)
    ensures
        encode_tail(rs.push(r)) == encode_tail(rs) + seq![','] + encode_record(r),
    decreases rs.len(),
{
    if rs.len() == 0 {
        assert(rs.push(r)[0] == r);
        assert(rs.push(r).drop_first() =~= Seq::<RecordView>::empty());
        assert(encode_tail(Seq::<RecordView>::empty()) == Seq::<char>::empty());
        assert(encode_tail(rs.push(r)) =~= encode_tail(rs) + seq![','] + encode_record(r));
    } else {
        lemma_encode_tail_push(rs.drop_first(), r);
        assert(rs.push(r).drop_first() =~= rs.drop_first().push(r));
        assert(rs.push(r)[0] == rs[0]);
        assert(encode_tail(rs.push(r)) =~= encode_tail(rs) + seq![','] + encode_record(r));
    }
}

/// The record views of a vector of records.
pub open spec fn recs_view(v: Seq<SerializeableTimerParts>) -> Seq<RecordView> {
    v.map(|i: int, r: SerializeableTimerParts| r@)
}

pub proof fn lemma_recs_view_push(v: Seq<SerializeableTimerParts>, r: SerializeableTimerParts)
    ensures
        recs_view(v.push(r)) == recs_view(v).push(r@),
{
    assert(recs_view(v.push(r)) =~= recs_view(v).push(r@));
}

// ---------------------------------------------------------------------------
// The encoder
// ---------------------------------------------------------------------------

/// Append the escaped form of the description to `out`.
fn append_escaped(out: &mut String, descr: &str)
    ensures
        final(out)@ == old(out)@ + escape_str(descr@),
{
    let chars = crate::strutil::str_to_chars(descr);
    let mut i: usize = 0;
    while i < chars.len()
        invariant
            chars@ == descr@,
            i <= chars@.len(),
            out@ == old(out)@ + escape_str(descr@.subrange(0, i as int)),
        decreases chars@.len() - i,
    {
        let ghost pre = descr@.subrange(0, i as int);
        let c = chars[i];
        if c == '"' {
            push_char(out, '\\');
            push_char(out, '"');
        } else if c == '\\' {
            push_char(out, '\\');
            push_char(out, '\\');
        } else {
            push_char(out, c);
        }
        i += 1;
        proof {
            lemma_escape_push(pre, descr@[i - 1]);
            assert(descr@.subrange(0, i as int) =~= pre.push(descr@[i - 1]));
            assert(out@ =~= old(out)@ + escape_str(descr@.subrange(0, i as int)));
        }
    }
    proof {
        assert(descr@.subrange(0, descr@.len() as int) =~= descr@);
    }
}

/// Append the encoded form of one record to `out`.
fn append_record(out: &mut String, rec: &SerializeableTimerParts)
    ensures
        final(out)@ == old(out)@ + encode_record(rec@),
{
    out.append("{\"description\":\"");
    proof {
        reveal_strlit("{\"description\":\"");
        assert("{\"description\":\""@ =~= seq!['{'] + lit_description() + seq![':'] + seq!['"']);
    }
    append_escaped(out, rec.description.as_str());
    out.append("\",\"length\":");
    proof {
        reveal_strlit("\",\"length\":");
        assert("\",\"length\":"@ =~= seq!['"'] + seq![','] + lit_length() + seq![':']);
    }
    append_u64(out, rec.length);
    out.append(",\"time_left\":");
    proof {
        reveal_strlit(",\"time_left\":");
        assert(",\"time_left\":"@ =~= seq![','] + lit_time_left() + seq![':']);
    }
    append_u64(out, rec.time_left);
    out.append("}");
    proof {
        reveal_strlit("}");
        assert("}"@ =~= seq!['}']);
        assert(final(out)@ =~= old(out)@ + encode_record(rec@));
    }
}

/// The persisted form of `records`: one JSON array holding, for every
/// record, its description, length and time left.
pub fn encode_records_exec(records: &Vec<SerializeableTimerParts>) -> (s: String)
    ensures
        s@ == encode_records(recs_view(records@)),
{
    let ghost rv = recs_view(records@);
    let mut out = String::new();
    out.append("[");
    proof {
        reveal_strlit("[");
        assert("["@ =~= seq!['[']);
        assert(out@ =~= seq!['[']);
    }
    let n: usize = records.len();
    let mut i: usize = 0;
    while i < n
        invariant
            n == records@.len(),
            i <= n,
            rv == recs_view(records@),
            rv.len() == n,
            i == 0 ==> out@ == seq!['['],
            i >= 1 ==> out@ == seq!['['] + encode_record(rv[0]) + encode_tail(
                rv.subrange(1, i as int),
            ),
        decreases n - i,
    {
        if i == 0 {
            append_record(&mut out, &records[i]);
            proof {
                assert(rv[0] == records@[0]@);
                assert(rv.subrange(1, 1) =~= Seq::<RecordView>::empty());
                assert(out@ =~= seq!['['] + encode_record(rv[0]) + encode_tail(
                    rv.subrange(1, 1),
                ));
            }
        } else {
            let ghost tail_pre = rv.subrange(1, i as int);
            out.append(",");
            proof {
                reveal_strlit(",");
                assert(","@ =~= seq![',']);
            }
            append_record(&mut out, &records[i]);
            proof {
                assert(rv[i as int] == records@[i as int]@);
                lemma_encode_tail_push(tail_pre, rv[i as int]);
                assert(rv.subrange(1, i + 1) =~= tail_pre.push(rv[i as int]));
                assert(out@ =~= seq!['['] + encode_record(rv[0]) + encode_tail(
                    rv.subrange(1, i + 1),
                ));
            }
        }
        i += 1;
    }
    out.append("]");
    proof {
        reveal_strlit("]");
        assert("]"@ =~= seq![']']);
        if n == 0 {
            assert(out@ =~= encode_records(rv));
        } else {
            assert(rv.subrange(1, n as int) =~= rv.drop_first());
            assert(out@ =~= encode_records(rv));
        }
    }
    out
}

// ---------------------------------------------------------------------------
// The accepted grammar
// ---------------------------------------------------------------------------

pub open spec fn is_ws(c: char) -> bool {
    c == ' ' || c == '\n' || c == '\r' || c == '\t'
}

/// The first position at or after `i` that does not hold whitespace.
pub open spec fn spec_skip_ws(s: Seq<char>, i: int) -> int
    decreases s.len() - i,
{
    if 0 <= i < s.len() && is_ws(s[i]) {
        spec_skip_ws(s, i + 1)
    } else {
        i
    }
}

pub proof fn lemma_skip_ws_props(s: Seq<char>, i: int)
    requires
        0 <= i <= s.len(),
    ensures
        i <= spec_skip_ws(s, i) <= s.len(),
        spec_skip_ws(s, i) < s.len() ==> !is_ws(s[spec_skip_ws(s, i)]),
    decreases s.len() - i,
{
    if i < s.len() && is_ws(s[i]) {
        lemma_skip_ws_props(s, i + 1);
    }
}

/// `Some(end)` when `lit` occurs verbatim at position `i`.
pub open spec fn spec_expect(s: Seq<char>, i: int, lit: Seq<char>) -> Option<int> {
    if 0 <= i && i + lit.len() <= s.len() && s.subrange(i, i + lit.len()) == lit {
        Some(i + lit.len())
    } else {
        None
    }
}

/// The end of the run of decimal digits starting at `i`.
pub open spec fn digit_run_end(s: Seq<char>, i: int) -> int
    decreases s.len() - i,
{
    if 0 <= i < s.len() && is_digit_char(s[i]) {
        digit_run_end(s, i + 1)
    } else {
        i
    }
}

pub proof fn lemma_digit_run_props(s: Seq<char>, i: int)
    requires
        0 <= i <= s.len(),
    ensures
        i <= digit_run_end(s, i) <= s.len(),
        digit_run_end(s, i) < s.len() ==> !is_digit_char(s[digit_run_end(s, i)]),
        forall|k: int| i <= k < digit_run_end(s, i) ==> is_digit_char(s[k]),
    decreases s.len() - i,
{
    if i < s.len() && is_digit_char(s[i]) {
        lemma_digit_run_props(s, i + 1);
    }
}

/// A number is a non-empty digit run whose value fits in sixty-four bits.
pub open spec fn spec_parse_number(s: Seq<char>, i: int) -> Option<(u64, int)> {
    let j = digit_run_end(s, i);
    if j == i {
        None
    } else {
        let v = digits_value(s.subrange(i, j));
        if v > u64::MAX {
            None
        } else {
            Some((v as u64, j))
        }
    }
}

/// The inside of a JSON string, read from just after the opening quote up to
/// and over the closing quote. Only the two escapes the encoder emits are
/// understood; any other character stands for itself.
pub open spec fn spec_parse_string_body(s: Seq<char>, i: int) -> Option<(Seq<char>, int)>
    decreases s.len() - i,
{
    if !(0 <= i < s.len()) {
        None
    } else if s[i] == '"' {
        Some((Seq::<char>::empty(), i + 1))
    } else if s[i] == '\\' {
        if i + 1 < s.len() && (s[i + 1] == '"' || s[i + 1] == '\\') {
            match spec_parse_string_body(s, i + 2) {
                Some(p) => Some((seq![s[i + 1]] + p.0, p.1)),
                None => None,
            }
        } else {
            None
        }
    } else {
        match spec_parse_string_body(s, i + 1) {
            Some(p) => Some((seq![s[i]] + p.0, p.1)),
            None => None,
        }
    }
}

pub proof fn lemma_string_body_bounds(s: Seq<char>, i: int)
    requires
        0 <= i <= s.len(),
        spec_parse_string_body(s, i) is Some,
    ensures
        i < (spec_parse_string_body(s, i)->0).1 <= s.len(),
    decreases s.len() - i,
{
    if s[i] == '"' {
    } else if s[i] == '\\' {
        lemma_string_body_bounds(s, i + 2);
    } else {
        lemma_string_body_bounds(s, i + 1);
    }
}

/// One record object: the three keys in fixed order, whitespace allowed
/// around every token.
pub open spec fn spec_parse_record(s: Seq<char>, i: int) -> Option<(RecordView, int)> {
    let i0 = spec_skip_ws(s, i);
    if !(i0 < s.len() && s[i0] == '{') {
        None
    } else {
        match spec_expect(s, spec_skip_ws(s, i0 + 1), lit_description()) {
            None => None,
            Some(i2) => {
                let i3 = spec_skip_ws(s, i2);
                if !(i3 < s.len() && s[i3] == ':') {
                    None
                } else {
                    let i4 = spec_skip_ws(s, i3 + 1);
                    if !(i4 < s.len() && s[i4] == '"') {
                        None
                    } else {
                        match spec_parse_string_body(s, i4 + 1) {
                            None => None,
                            Some(ds) => {
                                let i5 = spec_skip_ws(s, ds.1);
                                if !(i5 < s.len() && s[i5] == ',') {
                                    None
                                } else {
                                    match spec_expect(s, spec_skip_ws(s, i5 + 1), lit_length()) {
                                        None => None,
                                        Some(i7) => {
                                            let i8 = spec_skip_ws(s, i7);
                                            if !(i8 < s.len() && s[i8] == ':') {
                                                None
                                            } else {
                                                spec_parse_record_tail(s, i8, ds.0)
                                            }
                                        },
                                    }
                                }
                            },
                        }
                    }
                }
            },
        }
    }
}

/// The rest of a record after `"length" :` — the two numbers and the brace.
pub open spec fn spec_parse_record_tail(s: Seq<char>, i8: int, descr: Seq<char>) -> Option<
    (RecordView, int),
> {
    match spec_parse_number(s, spec_skip_ws(s, i8 + 1)) {
        None => None,
        Some(ln) => {
            let i11 = spec_skip_ws(s, ln.1);
            if !(i11 < s.len() && s[i11] == ',') {
                None
            } else {
                match spec_expect(s, spec_skip_ws(s, i11 + 1), lit_time_left()) {
                    None => None,
                    Some(i13) => {
                        let i14 = spec_skip_ws(s, i13);
                        if !(i14 < s.len() && s[i14] == ':') {
                            None
                        } else {
                            match spec_parse_number(s, spec_skip_ws(s, i14 + 1)) {
                                None => None,
                                Some(tn) => {
                                    let i17 = spec_skip_ws(s, tn.1);
                                    if !(i17 < s.len() && s[i17] == '}') {
                                        None
                                    } else {
                                        Some(
                                            (
                                                RecordView {
                                                    length: ln.0,
                                                    time_left: tn.0,
                                                    description: descr,
                                                },
                                                i17 + 1,
                                            ),
                                        )
                                    }
                                },
                            }
                        }
                    },
                }
            }
        },
    }
}

/// After the first record of an array: either the closing bracket, or a
/// comma and another record, repeated.
pub open spec fn spec_parse_more_items(s: Seq<char>, i: int) -> Option<(Seq<RecordView>, int)>
    decreases s.len() - i,
{
    if i < 0 {
        None
    } else {
        let i0 = spec_skip_ws(s, i);
        if i0 < s.len() && s[i0] == ']' {
            Some((Seq::<RecordView>::empty(), i0 + 1))
        } else if i0 < s.len() && s[i0] == ',' {
            match spec_parse_record(s, i0 + 1) {
                None => None,
                Some(r) => if r.1 <= i || r.1 > s.len() {
                    None
                } else {
                    match spec_parse_more_items(s, r.1) {
                        None => None,
                        Some(rest) => Some((seq![r.0] + rest.0, rest.1)),
                    }
                },
            }
        } else {
            None
        }
    }
}

pub proof fn lemma_digits_value_nonneg(ds: Seq<char>)
    requires
        forall|t: int| 0 <= t < ds.len() ==> is_digit_char(#[trigger] ds[t]),
    ensures
        digits_value(ds) >= 0,
    decreases ds.len(),
{
    if ds.len() > 0 {
        assert(forall|t: int| 0 <= t < ds.len() - 1 ==> ds.drop_last()[t] == ds[t]);
        lemma_digits_value_nonneg(ds.drop_last());
    }
}

/// A longer digit run never has a smaller value than a prefix of it.
pub proof fn lemma_digits_value_mono(s: Seq<char>, i: int, k: int, j: int)
    requires
        0 <= i <= k <= j <= s.len(),
        forall|t: int| i <= t < j ==> is_digit_char(#[trigger] s[t]),
    ensures
        digits_value(s.subrange(i, j)) >= digits_value(s.subrange(i, k)),
    decreases j - k,
{
    if k < j {
        let pre = s.subrange(i, k);
        let ext = s.subrange(i, k + 1);
        assert(forall|t: int| 0 <= t < pre.len() ==> is_digit_char(pre[t]));
        lemma_digits_value_nonneg(pre);
        assert(ext.drop_last() =~= pre);
        assert(ext.last() == s[k]);
        assert(digits_value(ext) == digits_value(pre) * 10 + digit_val(s[k]));
        assert(digits_value(pre) * 10 >= digits_value(pre));
        lemma_digits_value_mono(s, i, k + 1, j);
    }
}

/// A whole persisted file: one array of records and nothing after it.
pub open spec fn spec_parse_records(s: Seq<char>) -> Option<Seq<RecordView>> {
    let i0 = spec_skip_ws(s, 0);
    if !(i0 < s.len() && s[i0] == '[') {
        None
    } else {
        let i1 = spec_skip_ws(s, i0 + 1);
        if i1 < s.len() && s[i1] == ']' {
            if spec_skip_ws(s, i1 + 1) == s.len() {
                Some(Seq::<RecordView>::empty())
            } else {
                None
            }
        } else {
            match spec_parse_record(s, i0 + 1) {
                None => None,
                Some(r) => if r.1 < 0 || r.1 > s.len() {
                    None
                } else {
                    match spec_parse_more_items(s, r.1) {
                        None => None,
                        Some(rest) => if spec_skip_ws(s, rest.1) == s.len() {
                            Some(seq![r.0] + rest.0)
                        } else {
                            None
                        },
                    }
                },
            }
        }
    }
}

// ---------------------------------------------------------------------------
// Parsing inverts encoding
// ---------------------------------------------------------------------------

/// Splitting a known concatenation inside `s` into its two halves.
proof fn lemma_concat_extract(s: Seq<char>, i: int, a: Seq<char>, b: Seq<char>)
    requires
        0 <= i,
        i + a.len() + b.len() <= s.len(),
        s.subrange(i, i + a.len() + b.len()) == a + b,
    ensures
        s.subrange(i, i + a.len()) == a,
        s.subrange(i + a.len(), i + a.len() + b.len()) == b,
{
    let whole = s.subrange(i, i + a.len() + b.len());
    assert forall|t: int| 0 <= t < a.len() implies s[i + t] == a[t] by {
        assert(whole[t] == s[i + t]);
        assert((a + b)[t] == a[t]);
    };
    assert(s.subrange(i, i + a.len()) =~= a);
    assert forall|t: int| 0 <= t < b.len() implies s[i + a.len() + t] == b[t] by {
        assert(whole[a.len() + t] == s[i + a.len() + t]);
        assert((a + b)[a.len() + t] == b[t]);
    };
    assert(s.subrange(i + a.len(), i + a.len() + b.len()) =~= b);
}

/// An encoded string body, followed by its closing quote, parses back to
/// exactly the original characters.
pub proof fn lemma_parse_of_encoded_string(s: Seq<char>, i: int, x: Seq<char>)
    requires
        0 <= i,
        i + escape_str(x).len() + 1 <= s.len(),
        s.subrange(i, i + escape_str(x).len()) == escape_str(x),
        s[i + escape_str(x).len()] == '"',
    ensures
        spec_parse_string_body(s, i) == Some((x, i + escape_str(x).len() + 1)),
    decreases x.len(),
{
    let e = escape_str(x);
    if x.len() == 0 {
        assert(e.len() == 0);
        assert(s[i] == '"');
    } else {
        let c = x[0];
        let x2 = x.drop_first();
        let e2 = escape_str(x2);
        assert(e == escape_char(c) + e2);
        assert(forall|t: int| 0 <= t < e.len() ==> s[i + t] == e[t]) by {
            assert(forall|t: int|
                0 <= t < e.len() ==> #[trigger] s.subrange(i, i + e.len())[t] == s[i + t]);
        }
        if c == '"' || c == '\\' {
            assert(e[0] == '\\');
            assert(e[1] == c);
            assert(s[i] == '\\');
            assert(s[i + 1] == c);
            assert(s.subrange(i + 2, i + 2 + e2.len()) =~= e2) by {
                assert(forall|t: int| 0 <= t < e2.len() ==> e[2 + t] == e2[t]);
            }
            assert(s[i + 2 + e2.len()] == '"');
            lemma_parse_of_encoded_string(s, i + 2, x2);
            assert(seq![s[i + 1]] + x2 =~= x);
        } else {
            assert(e[0] == c);
            assert(s[i] == c);
            assert(s.subrange(i + 1, i + 1 + e2.len()) =~= e2) by {
                assert(forall|t: int| 0 <= t < e2.len() ==> e[1 + t] == e2[t]);
            }
            assert(s[i + 1 + e2.len()] == '"');
            lemma_parse_of_encoded_string(s, i + 1, x2);
            assert(seq![s[i]] + x2 =~= x);
        }
    }
}

proof fn lemma_digit_run_of(s: Seq<char>, i: int, j: int)
    requires
        0 <= i <= j <= s.len(),
        forall|t: int| i <= t < j ==> is_digit_char(#[trigger] s[t]),
        j == s.len() || !is_digit_char(s[j]),
    ensures
        digit_run_end(s, i) == j,
    decreases j - i,
{
    if i < j {
        lemma_digit_run_of(s, i + 1, j);
    }
}

/// An encoded number, followed by a non-digit, parses back to its value.
pub proof fn lemma_parse_of_encoded_number(s: Seq<char>, i: int, n: u64)
    requires
        0 <= i,
        i + dec_digits(n as nat).len() <= s.len(),
        s.subrange(i, i + dec_digits(n as nat).len()) == dec_digits(n as nat),
        i + dec_digits(n as nat).len() == s.len() || !is_digit_char(
            s[i + dec_digits(n as nat).len()],
        ),
    ensures
        spec_parse_number(s, i) == Some((n, i + dec_digits(n as nat).len())),
{
    let ds = dec_digits(n as nat);
    lemma_dec_digits_are_digits(n as nat);
    assert forall|t: int| i <= t < i + ds.len() implies is_digit_char(#[trigger] s[t]) by {
        assert(s.subrange(i, i + ds.len())[t - i] == s[t]);
        assert(ds[t - i] == s.subrange(i, i + ds.len())[t - i]);
    };
    lemma_digit_run_of(s, i, i + ds.len());
    lemma_digits_value_of_dec_digits(n as nat);
}

/// An encoded record parses back to exactly the original record view.
#[verifier::rlimit(100)]
pub proof fn lemma_parse_of_encoded_record(s: Seq<char>, i: int, r: RecordView)
    requires
        0 <= i,
        i + encode_record(r).len() <= s.len(),
        s.subrange(i, i + encode_record(r).len()) == encode_record(r),
    ensures
        spec_parse_record(s, i) == Some((r, i + encode_record(r).len())),
{
    let e = encode_record(r);
    let esc = escape_str(r.description);
    let el = esc.len() as int;
    let dg1 = dec_digits(r.length as nat);
    let d1 = dg1.len() as int;
    let dg2 = dec_digits(r.time_left as nat);
    let d2 = dg2.len() as int;
    let part1 = seq!['{'] + lit_description() + seq![':'] + seq!['"'];
    let part2 = seq!['"'] + seq![','] + lit_length() + seq![':'];
    let part3 = seq![','] + lit_time_left() + seq![':'];
    let close = seq!['}'];
    assert(part1.len() == 16);
    assert(part2.len() == 11);
    assert(part3.len() == 13);
    let rest1 = esc + (part2 + (dg1 + (part3 + (dg2 + close))));
    assert(e =~= part1 + rest1);
    assert(e.len() == 41 + el + d1 + d2);
    lemma_concat_extract(s, i, part1, rest1);
    let rest2 = part2 + (dg1 + (part3 + (dg2 + close)));
    lemma_concat_extract(s, i + 16, esc, rest2);
    let rest3 = dg1 + (part3 + (dg2 + close));
    lemma_concat_extract(s, i + 16 + el, part2, rest3);
    let rest4 = part3 + (dg2 + close);
    lemma_concat_extract(s, i + 27 + el, dg1, rest4);
    let rest5 = dg2 + close;
    lemma_concat_extract(s, i + 27 + el + d1, part3, rest5);
    lemma_concat_extract(s, i + 40 + el + d1, dg2, close);
    // single characters of the fixed parts
    assert(s[i] == '{') by {
        assert(s.subrange(i, i + 16)[0] == s[i]);
        assert(part1[0] == '{');
    }
    assert(s[i + 14] == ':') by {
        assert(s.subrange(i, i + 16)[14] == s[i + 14]);
        assert(part1[14] == ':');
    }
    assert(s[i + 15] == '"') by {
        assert(s.subrange(i, i + 16)[15] == s[i + 15]);
        assert(part1[15] == '"');
    }
    assert(s[i + 16 + el] == '"') by {
        assert(s.subrange(i + 16 + el, i + 27 + el)[0] == s[i + 16 + el]);
        assert(part2[0] == '"');
    }
    assert(s[i + 17 + el] == ',') by {
        assert(s.subrange(i + 16 + el, i + 27 + el)[1] == s[i + 17 + el]);
        assert(part2[1] == ',');
    }
    assert(s[i + 26 + el] == ':') by {
        assert(s.subrange(i + 16 + el, i + 27 + el)[10] == s[i + 26 + el]);
        assert(part2[10] == ':');
    }
    assert(s[i + 27 + el + d1] == ',') by {
        assert(s.subrange(i + 27 + el + d1, i + 40 + el + d1)[0] == s[i + 27 + el + d1]);
        assert(part3[0] == ',');
    }
    assert(s[i + 39 + el + d1] == ':') by {
        assert(s.subrange(i + 27 + el + d1, i + 40 + el + d1)[12] == s[i + 39 + el + d1]);
        assert(part3[12] == ':');
    }
    assert(s[i + 40 + el + d1 + d2] == '}') by {
        assert(s.subrange(i + 40 + el + d1 + d2, i + 41 + el + d1 + d2)[0] == s[i + 40 + el + d1
            + d2]);
    }
    // the first digit of each number is a digit, so no whitespace precedes it
    lemma_dec_digits_are_digits(r.length as nat);
    lemma_dec_digits_are_digits(r.time_left as nat);
    assert(s[i + 27 + el] == dg1[0]) by {
        assert(s.subrange(i + 27 + el, i + 27 + el + d1)[0] == s[i + 27 + el]);
    }
    assert(is_digit_char(dg1[0]));
    assert(!is_ws(s[i + 27 + el]));
    assert(s[i + 40 + el + d1] == dg2[0]) by {
        assert(s.subrange(i + 40 + el + d1, i + 40 + el + d1 + d2)[0] == s[i + 40 + el + d1]);
    }
    assert(is_digit_char(dg2[0]));
    assert(!is_ws(s[i + 40 + el + d1]));
    // the two key literals
    assert(s.subrange(i + 1, i + 14) =~= lit_description()) by {
        assert forall|t: int|
            0 <= t < 13 implies #[trigger] s.subrange(i + 1, i + 14)[t]
            == lit_description()[t] by {
            assert(s.subrange(i + 1, i + 14)[t] == s[i + 1 + t]);
            assert(s.subrange(i, i + 16)[1 + t] == s[i + 1 + t]);
            assert(part1[1 + t] == lit_description()[t]);
        };
    }
    assert(s.subrange(i + 18 + el, i + 26 + el) =~= lit_length()) by {
        assert forall|t: int|
            0 <= t < 8 implies #[trigger] s.subrange(i + 18 + el, i + 26 + el)[t]
            == lit_length()[t] by {
            assert(s.subrange(i + 18 + el, i + 26 + el)[t] == s[i + 18 + el + t]);
            assert(s.subrange(i + 16 + el, i + 27 + el)[2 + t] == s[i + 18 + el + t]);
            assert(part2[2 + t] == lit_length()[t]);
        };
    }
    assert(s.subrange(i + 28 + el + d1, i + 39 + el + d1) =~= lit_time_left()) by {
        assert forall|t: int|
            0 <= t < 11 implies #[trigger] s.subrange(i + 28 + el + d1, i + 39 + el + d1)[t]
            == lit_time_left()[t] by {
            assert(s.subrange(i + 28 + el + d1, i + 39 + el + d1)[t] == s[i + 28 + el + d1 + t]);
            assert(s.subrange(i + 27 + el + d1, i + 40 + el + d1)[1 + t] == s[i + 28 + el + d1
                + t]);
            assert(part3[1 + t] == lit_time_left()[t]);
        };
    }
    // walk the parser
    assert(spec_skip_ws(s, i) == i);
    assert(spec_skip_ws(s, i + 1) == i + 1);
    assert(spec_expect(s, i + 1, lit_description()) == Some(i + 14));
    assert(spec_skip_ws(s, i + 14) == i + 14);
    assert(spec_skip_ws(s, i + 15) == i + 15);
    lemma_parse_of_encoded_string(s, i + 16, r.description);
    assert(spec_parse_string_body(s, i + 16) == Some((r.description, i + 17 + el)));
    assert(spec_skip_ws(s, i + 17 + el) == i + 17 + el);
    assert(spec_skip_ws(s, i + 18 + el) == i + 18 + el);
    assert(spec_expect(s, i + 18 + el, lit_length()) == Some(i + 26 + el));
    assert(spec_skip_ws(s, i + 26 + el) == i + 26 + el);
    assert(spec_skip_ws(s, i + 27 + el) == i + 27 + el);
    lemma_parse_of_encoded_number(s, i + 27 + el, r.length);
    assert(spec_parse_number(s, i + 27 + el) == Some((r.length, i + 27 + el + d1)));
    assert(spec_skip_ws(s, i + 27 + el + d1) == i + 27 + el + d1);
    assert(spec_skip_ws(s, i + 28 + el + d1) == i + 28 + el + d1);
    assert(spec_expect(s, i + 28 + el + d1, lit_time_left()) == Some(i + 39 + el + d1));
    assert(spec_skip_ws(s, i + 39 + el + d1) == i + 39 + el + d1);
    assert(spec_skip_ws(s, i + 40 + el + d1) == i + 40 + el + d1);
    lemma_parse_of_encoded_number(s, i + 40 + el + d1, r.time_left);
    assert(spec_parse_number(s, i + 40 + el + d1) == Some((r.time_left, i + 40 + el + d1 + d2)));
    assert(spec_skip_ws(s, i + 40 + el + d1 + d2) == i + 40 + el + d1 + d2);
    assert(RecordView { length: r.length, time_left: r.time_left, description: r.description }
        == r);
    assert(spec_parse_record(s, i) == Some((r, i + 41 + el + d1 + d2)));
}

/// The encoded records after the first, with the closing bracket filling the
/// rest of the text, parse back to exactly those records.
pub proof fn lemma_parse_of_encoded_tail(s: Seq<char>, i: int, rs: Seq<RecordView>)
    requires
        0 <= i <= s.len(),
        s.subrange(i, s.len() as int) == encode_tail(rs) + seq![']'],
    ensures
        spec_parse_more_items(s, i) == Some((rs, s.len() as int)),
    decreases rs.len(),
{
    let rem = encode_tail(rs) + seq![']'];
    assert(s.len() - i == rem.len());
    if rs.len() == 0 {
        assert(encode_tail(rs).len() == 0);
        assert(rem.len() == 1);
        assert(s[i] == ']') by {
            assert(s.subrange(i, s.len() as int)[0] == s[i]);
            assert(rem[0] == ']');
        }
        assert(spec_skip_ws(s, i) == i);
    } else {
        let rec = encode_record(rs[0]);
        let rest = encode_tail(rs.drop_first());
        let x = rec + (rest + seq![']']);
        assert(encode_tail(rs) == seq![','] + rec + rest);
        assert(rem =~= seq![','] + x);
        assert(s.len() == i + 1 + x.len());
        lemma_concat_extract(s, i, seq![','], x);
        lemma_concat_extract(s, i + 1, rec, rest + seq![']']);
        assert(s[i] == ',') by {
            assert(s.subrange(i, i + 1)[0] == s[i]);
        }
        assert(spec_skip_ws(s, i) == i);
        lemma_parse_of_encoded_record(s, i + 1, rs[0]);
        let j = i + 1 + rec.len();
        assert(s.subrange(j, s.len() as int) == rest + seq![']']);
        lemma_parse_of_encoded_tail(s, j, rs.drop_first());
        assert(seq![rs[0]] + rs.drop_first() =~= rs);
    }
}

/// Law: parsing inverts encoding — the persisted text of any record
/// sequence parses back to exactly that sequence.
pub proof fn lemma_parse_encode_roundtrip(rs: Seq<RecordView>)
    ensures
        spec_parse_records(encode_records(rs)) == Some(rs),
{
    let s = encode_records(rs);
    if rs.len() == 0 {
        assert(s =~= seq!['[', ']']);
        assert(s[0] == '[');
        assert(s[1] == ']');
        assert(spec_skip_ws(s, 0) == 0);
        assert(spec_skip_ws(s, 1) == 1);
        assert(spec_skip_ws(s, 2) == 2);
        assert(spec_parse_records(s) == Some(Seq::<RecordView>::empty()));
        assert(Seq::<RecordView>::empty() =~= rs);
    } else {
        lemma_parse_encode_roundtrip_nonempty(rs);
    }
}

#[verifier::rlimit(100)]
proof fn lemma_records_encoding_layout(rs: Seq<RecordView>)
    requires
        rs.len() > 0,
    ensures
        ({
            let s = encode_records(rs);
            let rec = encode_record(rs[0]);
            &&& s.len() == 2 + rec.len() + encode_tail(rs.drop_first()).len()
            &&& s[0] == '['
            &&& s[1] == '{'
            &&& s.subrange(1, 1 + rec.len() as int) == rec
            &&& s.subrange(1 + rec.len() as int, s.len() as int) == encode_tail(rs.drop_first())
                + seq![']']
        }),
{
    let s = encode_records(rs);
    let rec = encode_record(rs[0]);
    let rest = encode_tail(rs.drop_first());
    let x = rec + (rest + seq![']']);
    assert(s == seq!['['] + rec + rest + seq![']']);
    assert(s =~= seq!['['] + x);
    assert(s.len() == 1 + x.len());
    assert(s.subrange(0, s.len() as int) =~= s);
    lemma_concat_extract(s, 0, seq!['['], x);
    lemma_concat_extract(s, 1, rec, rest + seq![']']);
    assert(s[0] == '[') by {
        assert(s.subrange(0, 1)[0] == s[0]);
    }
    assert(s[1] == '{') by {
        assert(s.subrange(1, 1 + rec.len() as int)[0] == s[1]);
        assert(rec[0] == '{');
    }
}

#[verifier::rlimit(100)]
proof fn lemma_parse_encode_roundtrip_nonempty(rs: Seq<RecordView>)
    requires
        rs.len() > 0,
    ensures
        spec_parse_records(encode_records(rs)) == Some(rs),
{
    let s = encode_records(rs);
    let rec = encode_record(rs[0]);
    lemma_records_encoding_layout(rs);
    assert(spec_skip_ws(s, 0) == 0);
    assert(spec_skip_ws(s, 1) == 1);
    lemma_parse_of_encoded_record(s, 1, rs[0]);
    let j = 1 + rec.len() as int;
    lemma_parse_of_encoded_tail(s, j, rs.drop_first());
    assert(spec_skip_ws(s, s.len() as int) == s.len());
    assert(seq![rs[0]] + rs.drop_first() =~= rs);
    assert(spec_parse_records(s) == Some(rs));
}

// ---------------------------------------------------------------------------
// The parser
// ---------------------------------------------------------------------------

/// Returned when loading text that the persistence grammar rejects.
#[derive(Clone, Copy, Debug, PartialEq, Eq, Structural)]
pub struct JsonError;

fn skip_ws(s: &Vec<char>, i: usize) -> (r: usize)
    requires
        i <= s@.len(),
    ensures
        r == spec_skip_ws(s@, i as int),
        i <= r <= s@.len(),
{
    let mut j: usize = i;
    while j < s.len() && (s[j] == ' ' || s[j] == '\n' || s[j] == '\r' || s[j] == '\t')
        invariant
            i <= j <= s@.len(),
            spec_skip_ws(s@, i as int) == spec_skip_ws(s@, j as int),
        decreases s@.len() - j,
    {
        j += 1;
    }
    j
}

fn lit_description_vec() -> (v: Vec<char>)
    ensures
        v@ == lit_description(),
{
    let mut v: Vec<char> = Vec::new();
    v.push('"');
    v.push('d');
    v.push('e');
    v.push('s');
    v.push('c');
    v.push('r');
    v.push('i');
    v.push('p');
    v.push('t');
    v.push('i');
    v.push('o');
    v.push('n');
    v.push('"');
    proof {
        assert(v@ =~= lit_description());
    }
    v
}

fn lit_length_vec() -> (v: Vec<char>)
    ensures
        v@ == lit_length(),
{
    let mut v: Vec<char> = Vec::new();
    v.push('"');
    v.push('l');
    v.push('e');
    v.push('n');
    v.push('g');
    v.push('t');
    v.push('h');
    v.push('"');
    proof {
        assert(v@ =~= lit_length());
    }
    v
}

fn lit_time_left_vec() -> (v: Vec<char>)
    ensures
        v@ == lit_time_left(),
{
    let mut v: Vec<char> = Vec::new();
    v.push('"');
    v.push('t');
    v.push('i');
    v.push('m');
    v.push('e');
    v.push('_');
    v.push('l');
    v.push('e');
    v.push('f');
    v.push('t');
    v.push('"');
    proof {
        assert(v@ =~= lit_time_left());
    }
    v
}

fn expect_lit(s: &Vec<char>, i: usize, lit: &Vec<char>) -> (r: Option<usize>)
    requires
        i <= s@.len(),
    ensures
        match r {
            Some(j) => spec_expect(s@, i as int, lit@) == Some(j as int) && i <= j <= s@.len(),
            None => spec_expect(s@, i as int, lit@) is None,
        },
{
    let n: usize = s.len();
    if n - i < lit.len() {
        return None;
    }
    let mut k: usize = 0;
    while k < lit.len()
        invariant
            k <= lit@.len(),
            n == s@.len(),
            i + lit@.len() <= n,
            forall|t: int| 0 <= t < k ==> s@[i + t] == lit@[t],
        decreases lit@.len() - k,
    {
        if s[i + k] != lit[k] {
            proof {
                assert(s@.subrange(i as int, i + lit@.len())[k as int] == s@[i + k]);
            }
            return None;
        }
        k += 1;
    }
    proof {
        assert(s@.subrange(i as int, i + lit@.len()) =~= lit@);
    }
    Some(i + lit.len())
}

fn parse_number(s: &Vec<char>, i: usize) -> (r: Option<(u64, usize)>)
    requires
        i <= s@.len(),
    ensures
        match r {
            Some(p) => spec_parse_number(s@, i as int) == Some((p.0, p.1 as int)) && i < p.1
                <= s@.len(),
            None => spec_parse_number(s@, i as int) is None,
        },
{
    let mut j: usize = i;
    while j < s.len() && s[j] as u32 >= 48 && s[j] as u32 <= 57
        invariant
            i <= j <= s@.len(),
            digit_run_end(s@, i as int) == digit_run_end(s@, j as int),
        decreases s@.len() - j,
    {
        j += 1;
    }
    if j == i {
        return None;
    }
    proof {
        lemma_digit_run_props(s@, i as int);
    }
    let mut acc: u64 = 0;
    let mut k: usize = i;
    while k < j
        invariant
            i <= k <= j <= s@.len(),
            j == digit_run_end(s@, i as int),
            forall|t: int| i <= t < j ==> is_digit_char(#[trigger] s@[t]),
            acc == digits_value(s@.subrange(i as int, k as int)),
        decreases j - k,
    {
        let ghost pre = s@.subrange(i as int, k as int);
        let d: u64 = (s[k] as u32 - 48) as u64;
        proof {
            assert(s@.subrange(i as int, k + 1).drop_last() =~= pre);
            assert(s@.subrange(i as int, k + 1).last() == s@[k as int]);
            assert(digits_value(s@.subrange(i as int, k + 1)) == digits_value(pre) * 10
                + digit_val(s@[k as int]));
        }
        let next_acc: u64 = match acc.checked_mul(10) {
            Some(m) => match m.checked_add(d) {
                Some(v) => v,
                None => {
                    proof {
                        lemma_digits_value_mono(s@, i as int, k + 1, j as int);
                    }
                    return None;
                },
            },
            None => {
                proof {
                    lemma_digits_value_nonneg(pre);
                    lemma_digits_value_mono(s@, i as int, k + 1, j as int);
                }
                return None;
            },
        };
        acc = next_acc;
        k += 1;
    }
    Some((acc, j))
}

fn parse_string_body(s: &Vec<char>, i: usize) -> (r: Option<(Vec<char>, usize)>)
    requires
        i <= s@.len(),
    ensures
        match r {
            Some(p) => spec_parse_string_body(s@, i as int) == Some((p.0@, p.1 as int)) && i < p.1
                <= s@.len(),
            None => spec_parse_string_body(s@, i as int) is None,
        },
{
    let mut acc: Vec<char> = Vec::new();
    let mut j: usize = i;
    while j < s.len()
        invariant
            i <= j <= s@.len(),
            spec_parse_string_body(s@, i as int) == (match spec_parse_string_body(s@, j as int) {
                Some(p) => Some((acc@ + p.0, p.1)),
                None => None::<(Seq<char>, int)>,
            }),
        decreases s@.len() - j,
    {
        let c = s[j];
        if c == '"' {
            proof {
                lemma_string_body_bounds(s@, i as int);
                assert(acc@ + Seq::<char>::empty() =~= acc@);
            }
            return Some((acc, j + 1));
        } else if c == '\\' {
            if j + 1 < s.len() && (s[j + 1] == '"' || s[j + 1] == '\\') {
                let ghost acc_pre = acc@;
                acc.push(s[j + 1]);
                proof {
                    assert(forall|t: Seq<char>| acc_pre + (seq![s@[j + 1]] + t) =~= acc@ + t);
                }
                j += 2;
            } else {
                return None;
            }
        } else {
            let ghost acc_pre = acc@;
            acc.push(c);
            proof {
                assert(forall|t: Seq<char>| acc_pre + (seq![s@[j as int]] + t) =~= acc@ + t);
            }
            j += 1;
        }
    }
    None
}

fn parse_record(s: &Vec<char>, i: usize) -> (r: Option<(SerializeableTimerParts, usize)>)
    requires
        i <= s@.len(),
    ensures
        match r {
            Some(p) => spec_parse_record(s@, i as int) == Some((p.0@, p.1 as int)) && i < p.1
                <= s@.len(),
            None => spec_parse_record(s@, i as int) is None,
        },
{
    let i0 = skip_ws(s, i);
    if i0 >= s.len() {
        return None;
    }
    if s[i0] != '{' {
        return None;
    }
    let i1 = skip_ws(s, i0 + 1);
    let lit_d = lit_description_vec();
    let i2 = match expect_lit(s, i1, &lit_d) {
        Some(x) => x,
        None => {
            return None;
        },
    };
    let i3 = skip_ws(s, i2);
    if i3 >= s.len() {
        return None;
    }
    if s[i3] != ':' {
        return None;
    }
    let i4 = skip_ws(s, i3 + 1);
    if i4 >= s.len() {
        return None;
    }
    if s[i4] != '"' {
        return None;
    }
    let (descr_chars, i5s) = match parse_string_body(s, i4 + 1) {
        Some(p) => p,
        None => {
            return None;
        },
    };
    let i5 = skip_ws(s, i5s);
    if i5 >= s.len() {
        return None;
    }
    if s[i5] != ',' {
        return None;
    }
    let i6 = skip_ws(s, i5 + 1);
    let lit_l = lit_length_vec();
    let i7 = match expect_lit(s, i6, &lit_l) {
        Some(x) => x,
        None => {
            return None;
        },
    };
    let i8 = skip_ws(s, i7);
    if i8 >= s.len() {
        return None;
    }
    if s[i8] != ':' {
        return None;
    }
    let i9 = skip_ws(s, i8 + 1);
    let (length, i10) = match parse_number(s, i9) {
        Some(p) => p,
        None => {
            return None;
        },
    };
    let i11 = skip_ws(s, i10);
    if i11 >= s.len() {
        return None;
    }
    if s[i11] != ',' {
        return None;
    }
    let i12 = skip_ws(s, i11 + 1);
    let lit_t = lit_time_left_vec();
    let i13 = match expect_lit(s, i12, &lit_t) {
        Some(x) => x,
        None => {
            return None;
        },
    };
    let i14 = skip_ws(s, i13);
    if i14 >= s.len() {
        return None;
    }
    if s[i14] != ':' {
        return None;
    }
    let i15 = skip_ws(s, i14 + 1);
    let (time_left, i16) = match parse_number(s, i15) {
        Some(p) => p,
        None => {
            return None;
        },
    };
    let i17 = skip_ws(s, i16);
    if i17 >= s.len() {
        return None;
    }
    if s[i17] != '}' {
        return None;
    }
    let descr = crate::strutil::chars_to_string(&descr_chars);
    Some((SerializeableTimerParts::new(descr, length, time_left), i17 + 1))
}

fn parse_more_items(s: &Vec<char>, i: usize) -> (r: Option<(Vec<SerializeableTimerParts>, usize)>)
    requires
        i <= s@.len(),
    ensures
        match r {
            Some(p) => spec_parse_more_items(s@, i as int) == Some((recs_view(p.0@), p.1 as int))
                && p.1 <= s@.len(),
            None => spec_parse_more_items(s@, i as int) is None,
        },
    decreases s@.len() - i,
{
    let i0 = skip_ws(s, i);
    if i0 < s.len() && s[i0] == ']' {
        let out: Vec<SerializeableTimerParts> = Vec::new();
        proof {
            assert(recs_view(out@) =~= Seq::<RecordView>::empty());
        }
        return Some((out, i0 + 1));
    }
    if !(i0 < s.len()) {
        return None;
    }
    if s[i0] != ',' {
        return None;
    }
    match parse_record(s, i0 + 1) {
        None => None,
        Some((rec, j1)) => {
            match parse_more_items(s, j1) {
                None => None,
                Some((rest, j2)) => {
                    let ghost rest_pre = rest@;
                    let mut out = rest;
                    out.insert(0, rec);
                    proof {
                        assert(recs_view(out@) =~= seq![rec@] + recs_view(rest_pre));
                    }
                    Some((out, j2))
                },
            }
        },
    }
}

/// Read a persisted file back into records: `Some` exactly when the text is
/// an array that this format accepts, holding the records in order.
pub fn parse_records_exec(json: &str) -> (r: Option<Vec<SerializeableTimerParts>>)
    ensures
        match r {
            Some(v) => spec_parse_records(json@) == Some(recs_view(v@)),
            None => spec_parse_records(json@) is None,
        },
{
    let s = crate::strutil::str_to_chars(json);
    let i0 = skip_ws(&s, 0);
    if i0 >= s.len() {
        return None;
    }
    if s[i0] != '[' {
        return None;
    }
    let i1 = skip_ws(&s, i0 + 1);
    if i1 < s.len() && s[i1] == ']' {
        let j = skip_ws(&s, i1 + 1);
        if j == s.len() {
            let out: Vec<SerializeableTimerParts> = Vec::new();
            proof {
                assert(recs_view(out@) =~= Seq::<RecordView>::empty());
            }
            return Some(out);
        } else {
            return None;
        }
    }
    let (first, j1) = match parse_record(&s, i0 + 1) {
        Some(p) => p,
        None => {
            return None;
        },
    };
    let (mut rest, j2) = match parse_more_items(&s, j1) {
        Some(p) => p,
        None => {
            return None;
        },
    };
    let j3 = skip_ws(&s, j2);
    if j3 != s.len() {
        return None;
    }
    let ghost rest_pre = rest@;
    let mut out: Vec<SerializeableTimerParts> = Vec::new();
    out.push(first);
    out.append(&mut rest);
    proof {
        assert(recs_view(out@) =~= seq![first@] + recs_view(rest_pre));
    }
    Some(out)
}

} // verus!
