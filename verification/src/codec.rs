//! Encoding and decoding of the persisted location file.
//!
//! The file holds one JSON document of the shape
//! `{"name":"...","latLng":[lat,lng]}`. Coordinates are held as integer
//! micro-degrees (one degree is 1_000_000 units) and are rendered as plain
//! decimal numbers with up to six fractional digits; the decoder accepts
//! exactly what the encoder emits, and a file that does not decode is
//! treated as corrupt by the caller.

use vstd::prelude::*;
use vstd::string::*;

verus! {

/// Relies on std's `String::push`: appends exactly the one character.
#[verifier::external_body]
pub(crate) fn push_char(out: &mut String, c: char)
    ensures
        final(out)@ == old(out)@ + seq![c],
{
    out.push(c)
}

pub open spec fn is_digit(c: char) -> bool {
    48 <= c as u32 <= 57
}

pub open spec fn digit_val(c: char) -> nat {
    (c as u32 - 48) as nat
}

pub open spec fn digit_char(d: nat) -> char {
    if d == 0 {
        '0'
    } else if d == 1 {
        '1'
    } else if d == 2 {
        '2'
    } else if d == 3 {
        '3'
    } else if d == 4 {
        '4'
    } else if d == 5 {
        '5'
    } else if d == 6 {
        '6'
    } else if d == 7 {
        '7'
    } else if d == 8 {
        '8'
    } else {
        '9'
    }
}

pub proof fn lemma_digit_char(d: nat)
    requires
        d < 10,
    ensures
        is_digit(digit_char(d)),
        digit_val(digit_char(d)) == d,
        digit_char(d) != '-' && digit_char(d) != '.' && digit_char(d) != '"' && digit_char(d)
            != '\\',
{
}

/// The numeric value of a sequence of decimal digit characters.
pub open spec fn seq_val(s: Seq<char>) -> nat
    decreases s.len(),
{
    if s.len() == 0 {
        0
    } else {
        seq_val(s.drop_last()) * 10 + digit_val(s.last())
    }
}

pub open spec fn all_digits(s: Seq<char>) -> bool {
    forall|i: int| 0 <= i < s.len() ==> is_digit(s[i])
}

/// The canonical decimal rendering of a natural number, most significant
/// digit first, without leading zeros (`0` renders as "0").
pub open spec fn digits_of(n: nat) -> Seq<char>
    decreases n,
{
    if n < 10 {
        seq![digit_char(n)]
    } else {
        digits_of(n / 10).push(digit_char(n % 10))
    }
}

pub proof fn lemma_digits_of(n: nat)
    ensures
        digits_of(n).len() >= 1,
        all_digits(digits_of(n)),
        seq_val(digits_of(n)) == n,
    decreases n,
{
    if n < 10 {
        lemma_digit_char(n);
        assert(digits_of(n) =~= seq![digit_char(n)]);
        assert(digits_of(n).drop_last() =~= Seq::<char>::empty());
        assert(seq_val(Seq::<char>::empty()) == 0);
        assert(seq_val(digits_of(n)) == seq_val(digits_of(n).drop_last()) * 10 + digit_val(
            digits_of(n).last(),
        ));
    } else {
        lemma_digits_of(n / 10);
        lemma_digit_char(n % 10);
        assert(digits_of(n).drop_last() =~= digits_of(n / 10));
        assert(seq_val(digits_of(n)) == seq_val(digits_of(n / 10)) * 10 + (n % 10));
        assert(seq_val(digits_of(n)) == n) by {
            assert(n == (n / 10) * 10 + n % 10);
        }
    }
}

fn push_digit(out: &mut String, d: u64)
    requires
        d < 10,
    ensures
        final(out)@ == old(out)@ + seq![digit_char(d as nat)],
{
    if d == 0 {
        push_char(out, '0');
    } else if d == 1 {
        push_char(out, '1');
    } else if d == 2 {
        push_char(out, '2');
    } else if d == 3 {
        push_char(out, '3');
    } else if d == 4 {
        push_char(out, '4');
    } else if d == 5 {
        push_char(out, '5');
    } else if d == 6 {
        push_char(out, '6');
    } else if d == 7 {
        push_char(out, '7');
    } else if d == 8 {
        push_char(out, '8');
    } else {
        push_char(out, '9');
    }
}

fn push_number(out: &mut String, n: u64)
    ensures
        final(out)@ == old(out)@ + digits_of(n as nat),
    decreases n,
{
    if n >= 10 {
        push_number(out, n / 10);
        push_digit(out, n % 10);
        assert(final(out)@ =~= old(out)@ + digits_of(n as nat));
    } else {
        push_digit(out, n);
        assert(final(out)@ =~= old(out)@ + digits_of(n as nat));
    }
}

pub open spec fn pow10(k: nat) -> nat
    decreases k,
{
    if k == 0 {
        1
    } else {
        10 * pow10((k - 1) as nat)
    }
}

/// The six fractional digits of a micro-unit remainder, zero padded.
pub open spec fn frac6(fp: nat) -> Seq<char> {
    seq![
        digit_char(fp / 100000 % 10),
        digit_char(fp / 10000 % 10),
        digit_char(fp / 1000 % 10),
        digit_char(fp / 100 % 10),
        digit_char(fp / 10 % 10),
        digit_char(fp % 10),
    ]
}

pub open spec fn trim_zeros(s: Seq<char>) -> Seq<char>
    decreases s.len(),
{
    if s.len() > 0 && s.last() == '0' {
        trim_zeros(s.drop_last())
    } else {
        s
    }
}

pub open spec fn abs_i(m: int) -> int {
    if m < 0 {
        -m
    } else {
        m
    }
}

/// The decimal rendering of a coordinate given in micro-degrees: an
/// optional sign, the whole degrees, and, when nonzero, a fractional part
/// with its trailing zeros removed.
pub open spec fn coord_chars(m: int) -> Seq<char> {
    let a = abs_i(m);
    let sign: Seq<char> = if m < 0 {
        seq!['-']
    } else {
        Seq::<char>::empty()
    };
    let ip = (a / 1000000) as nat;
    let fp = (a % 1000000) as nat;
    if fp == 0 {
        sign + digits_of(ip)
    } else {
        sign + digits_of(ip) + seq!['.'] + trim_zeros(frac6(fp))
    }
}

fn push_frac(out: &mut String, fp: u64)
    requires
        fp < 1000000,
    ensures
        final(out)@ == old(out)@ + trim_zeros(frac6(fp as nat)),
{
    let mut ds: Vec<u64> = Vec::new();
    ds.push(fp / 100000 % 10);
    ds.push(fp / 10000 % 10);
    ds.push(fp / 1000 % 10);
    ds.push(fp / 100 % 10);
    ds.push(fp / 10 % 10);
    ds.push(fp % 10);
    proof {
        assert(forall|i: int|
            0 <= i < 6 ==> frac6(fp as nat)[i] == digit_char(ds@[i] as nat) && ds@[i] < 10);
    }
    proof {
        assert(frac6(fp as nat).take(6) =~= frac6(fp as nat));
    }
    let mut len: usize = 6;
    while len > 0 && ds[len - 1] == 0u64
        invariant
            len <= 6,
            ds@.len() == 6,
            forall|i: int|
                0 <= i < 6 ==> frac6(fp as nat)[i] == digit_char(ds@[i] as nat) && ds@[i] < 10,
            trim_zeros(frac6(fp as nat)) == trim_zeros(frac6(fp as nat).take(len as int)),
        decreases len,
    {
        proof {
            let cs = frac6(fp as nat);
            assert(cs.take(len as int).last() == digit_char(ds@[len - 1] as nat));
            assert(cs.take(len as int).drop_last() =~= cs.take(len as int - 1));
        }
        len = len - 1;
    }
    proof {
        let cs = frac6(fp as nat);
        if len > 0 {
            lemma_digit_char(ds@[len - 1] as nat);
            assert(cs.take(len as int).last() == digit_char(ds@[len - 1] as nat));
            assert(cs.take(len as int).last() != '0');
        }
        assert(trim_zeros(cs.take(len as int)) == cs.take(len as int));
    }
    let mut i: usize = 0;
    while i < len
        invariant
            i <= len <= 6,
            ds@.len() == 6,
            forall|j: int|
                0 <= j < 6 ==> frac6(fp as nat)[j] == digit_char(ds@[j] as nat) && ds@[j] < 10,
            out@ == old(out)@ + frac6(fp as nat).take(i as int),
            trim_zeros(frac6(fp as nat)) == frac6(fp as nat).take(len as int),
        decreases len - i,
    {
        push_digit(out, ds[i]);
        proof {
            assert(frac6(fp as nat).take(i as int + 1) =~= frac6(fp as nat).take(i as int)
                + seq![frac6(fp as nat)[i as int]]);
        }
        i = i + 1;
    }
}

/// Appends the decimal form of a micro-degree coordinate.
pub fn push_coord(out: &mut String, m: i64)
    ensures
        final(out)@ == old(out)@ + coord_chars(m as int),
{
    let ghost start = out@;
    let neg: bool = m < 0;
    let a: u64 = if m < 0 {
        (-(m as i128)) as u64
    } else {
        m as u64
    };
    proof {
        assert(a as int == abs_i(m as int));
    }
    if neg {
        push_char(out, '-');
    }
    push_number(out, a / 1000000);
    let fp: u64 = a % 1000000;
    if fp > 0 {
        push_char(out, '.');
        push_frac(out, fp);
    }
    proof {
        assert(out@ =~= start + coord_chars(m as int));
    }
}

/// JSON escaping of one character: only quotes and backslashes are
/// escaped; every other character is written as itself.
pub open spec fn esc_char(c: char) -> Seq<char> {
    if c == '"' {
        seq!['\\', '"']
    } else if c == '\\' {
        seq!['\\', '\\']
    } else {
        seq![c]
    }
}

pub open spec fn esc(s: Seq<char>) -> Seq<char>
    decreases s.len(),
{
    if s.len() == 0 {
        Seq::<char>::empty()
    } else {
        esc_char(s[0]) + esc(s.subrange(1, s.len() as int))
    }
}

pub proof fn lemma_esc_push(s: Seq<char>, c: char)
    ensures
        esc(s.push(c)) == esc(s) + esc_char(c),
    decreases s.len(),
{
    if s.len() == 0 {
        assert(s.push(c)[0] == c);
        assert(s.push(c).subrange(1, 1) =~= Seq::<char>::empty());
        assert(esc(s.push(c)) == esc_char(c) + esc(Seq::<char>::empty()));
        assert(esc_char(c) + esc(Seq::<char>::empty()) =~= esc_char(c));
        assert(esc(s) =~= Seq::<char>::empty());
        assert(esc(s) + esc_char(c) =~= esc_char(c));
    } else {
        assert(s.push(c)[0] == s[0]);
        assert(s.push(c).subrange(1, s.len() as int + 1) =~= s.subrange(1, s.len() as int).push(c));
        lemma_esc_push(s.subrange(1, s.len() as int), c);
        assert(esc(s.push(c)) == esc_char(s[0]) + (esc(s.subrange(1, s.len() as int)) + esc_char(
            c,
        )));
        assert(esc_char(s[0]) + (esc(s.subrange(1, s.len() as int)) + esc_char(c)) =~= esc(s)
            + esc_char(c));
    }
}

/// The serialized form of a saved location: one JSON document with the
/// camel-case keys `name` and `latLng`, no added whitespace.
pub open spec fn render_chars(name: Seq<char>, lat: int, lng: int) -> Seq<char> {
    "{\"name\":\""@ + esc(name) + "\",\"latLng\":["@ + coord_chars(lat) + ","@ + coord_chars(lng)
        + "]}"@
}

/// Serializes a location to the persisted file form.
pub fn render_location(name: &str, lat: i64, lng: i64) -> (r: String)
    ensures
        r@ == render_chars(name@, lat as int, lng as int),
{
    let mut out: String = String::new();
    out.append("{\"name\":\"");
    let n: usize = name.unicode_len();
    let mut i: usize = 0;
    while i < n
        invariant
            n == name@.len(),
            i <= n,
            out@ == "{\"name\":\""@ + esc(name@.take(i as int)),
        decreases n - i,
    {
        let c: char = name.get_char(i);
        if c == '"' {
            out.append("\\\"");
            proof {
                reveal_strlit("\\\"");
                assert(("\\\"")@ =~= esc_char(c));
            }
        } else if c == '\\' {
            out.append("\\\\");
            proof {
                reveal_strlit("\\\\");
                assert(("\\\\")@ =~= esc_char(c));
            }
        } else {
            push_char(&mut out, c);
            proof {
                assert(seq![c] =~= esc_char(c));
            }
        }
        proof {
            lemma_esc_push(name@.take(i as int), c);
            assert(name@.take(i as int).push(c) =~= name@.take(i as int + 1));
            assert(out@ =~= "{\"name\":\""@ + esc(name@.take(i as int + 1)));
        }
        i = i + 1;
    }
    proof {
        assert(name@.take(n as int) =~= name@);
    }
    out.append("\",\"latLng\":[");
    push_coord(&mut out, lat);
    out.append(",");
    push_coord(&mut out, lng);
    out.append("]}");
    proof {
        assert(out@ =~= render_chars(name@, lat as int, lng as int));
    }
    out
}

/// `lit` occurs in `s` at position `pos`.
pub open spec fn lit_at(s: Seq<char>, pos: int, lit: Seq<char>) -> bool {
    0 <= pos && pos + lit.len() <= s.len() && s.subrange(pos, pos + lit.len() as int) == lit
}

/// Decodes a JSON string body starting at `pos`, up to but not including
/// the closing quote; only the escapes `\"` and `\\` are understood.
pub open spec fn spec_parse_str_body(s: Seq<char>, pos: int) -> Option<(Seq<char>, int)>
    decreases s.len() - pos,
{
    if pos < 0 || pos >= s.len() {
        None
    } else if s[pos] == '"' {
        Some((Seq::<char>::empty(), pos))
    } else if s[pos] == '\\' {
        if pos + 1 >= s.len() {
            None
        } else if s[pos + 1] == '"' || s[pos + 1] == '\\' {
            match spec_parse_str_body(s, pos + 2) {
                Some(t) => Some((seq![s[pos + 1]] + t.0, t.1)),
                None => None,
            }
        } else {
            None
        }
    } else {
        match spec_parse_str_body(s, pos + 1) {
            Some(t) => Some((seq![s[pos]] + t.0, t.1)),
            None => None,
        }
    }
}

/// The end of the run of decimal digits that starts at `pos`.
pub open spec fn digit_run_end(s: Seq<char>, pos: int) -> int
    decreases s.len() - pos,
{
    if 0 <= pos < s.len() && is_digit(s[pos]) {
        digit_run_end(s, pos + 1)
    } else {
        pos
    }
}

pub open spec fn spec_num_value(neg: bool, ipv: nat, fv: nat, end: int) -> Option<(int, int)> {
    let mag = (ipv * 1000000 + fv) as int;
    let v: int = if neg {
        -mag
    } else {
        mag
    };
    if i64::MIN <= v <= i64::MAX {
        Some((v, end))
    } else {
        None
    }
}

/// Decodes a decimal coordinate at `pos` into micro-degrees: an optional
/// minus sign, whole digits, and at most six fractional digits.
pub open spec fn spec_parse_number(s: Seq<char>, pos: int) -> Option<(int, int)> {
    let neg = 0 <= pos < s.len() && s[pos] == '-';
    let p1: int = if neg {
        pos + 1
    } else {
        pos
    };
    let ie = digit_run_end(s, p1);
    if ie == p1 {
        None
    } else {
        let ipv = seq_val(s.subrange(p1, ie));
        if ie < s.len() && s[ie] == '.' {
            let fe = digit_run_end(s, ie + 1);
            let flen = fe - (ie + 1);
            if 1 <= flen <= 6 {
                spec_num_value(
                    neg,
                    ipv,
                    seq_val(s.subrange(ie + 1, fe)) * pow10((6 - flen) as nat),
                    fe,
                )
            } else {
                None
            }
        } else {
            spec_num_value(neg, ipv, 0, ie)
        }
    }
}

/// Decodes a whole persisted document into name and micro-degree
/// coordinates; anything but a single well-formed document is rejected.
pub open spec fn spec_parse_location(s: Seq<char>) -> Option<(Seq<char>, int, int)> {
    if !lit_at(s, 0, "{\"name\":\""@) {
        None
    } else {
        match spec_parse_str_body(s, "{\"name\":\""@.len() as int) {
            None => None,
            Some(nt) => {
                if !lit_at(s, nt.1, "\",\"latLng\":["@) {
                    None
                } else {
                    match spec_parse_number(s, nt.1 + "\",\"latLng\":["@.len()) {
                        None => None,
                        Some(lt) => {
                            if !lit_at(s, lt.1, ","@) {
                                None
                            } else {
                                match spec_parse_number(s, lt.1 + ","@.len()) {
                                    None => None,
                                    Some(gt) => {
                                        if lit_at(s, gt.1, "]}"@) && gt.1 + "]}"@.len()
                                            == s.len() {
                                            Some((nt.0, lt.0, gt.0))
                                        } else {
                                            None
                                        }
                                    },
                                }
                            }
                        },
                    }
                }
            },
        }
    }
}

fn char_digit(c: char) -> (r: u64)
    requires
        is_digit(c),
    ensures
        r == digit_val(c),
        r < 10,
{
    (c as u32 - 48) as u64
}

fn expect_lit(s: &str, n: usize, pos: usize, lit: &str) -> (r: Option<usize>)
    requires
        n == s@.len(),
        pos <= n,
    ensures
        match r {
            Some(e) => lit_at(s@, pos as int, lit@) && e == pos + lit@.len(),
            None => !lit_at(s@, pos as int, lit@),
        },
{
    let m: usize = lit.unicode_len();
    if m > n - pos {
        return None;
    }
    let mut i: usize = 0;
    while i < m
        invariant
            n == s@.len(),
            m == lit@.len(),
            pos + m <= n,
            i <= m,
            s@.subrange(pos as int, pos + i as int) == lit@.subrange(0, i as int),
        decreases m - i,
    {
        let a: char = s.get_char(pos + i);
        let b: char = lit.get_char(i);
        if a != b {
            proof {
                assert(s@.subrange(pos as int, pos + lit@.len() as int)[i as int] == a);
                assert(!lit_at(s@, pos as int, lit@));
            }
            return None;
        }
        proof {
            assert(s@.subrange(pos as int, pos + i as int + 1) =~= s@.subrange(
                pos as int,
                pos + i as int,
            ).push(a));
            assert(lit@.subrange(0, i as int + 1) =~= lit@.subrange(0, i as int).push(b));
        }
        i = i + 1;
    }
    proof {
        assert(s@.subrange(pos as int, pos + m as int) =~= lit@.subrange(0, m as int));
        assert(lit@.subrange(0, m as int) =~= lit@);
    }
    Some(pos + m)
}

fn parse_str_body(s: &str, n: usize, pos: usize, out: &mut String) -> (r: Option<usize>)
    requires
        n == s@.len(),
        pos <= n,
    ensures
        match spec_parse_str_body(s@, pos as int) {
            Some(t) => r matches Some(e) && e as int == t.1 && final(out)@ == old(out)@ + t.0,
            None => r is None,
        },
    decreases n - pos,
{
    if pos >= n {
        return None;
    }
    let c: char = s.get_char(pos);
    if c == '"' {
        proof {
            assert(old(out)@ + Seq::<char>::empty() =~= old(out)@);
        }
        return Some(pos);
    }
    if c == '\\' {
        if pos + 1 >= n {
            return None;
        }
        let c2: char = s.get_char(pos + 1);
        if c2 == '"' || c2 == '\\' {
            push_char(out, c2);
            let ghost mid = out@;
            let r = parse_str_body(s, n, pos + 2, out);
            proof {
                if spec_parse_str_body(s@, pos as int) is Some {
                    let t2 = spec_parse_str_body(s@, pos as int + 2)->0;
                    assert(out@ =~= old(out)@ + (seq![c2] + t2.0));
                }
            }
            return r;
        }
        return None;
    }
    push_char(out, c);
    let r = parse_str_body(s, n, pos + 1, out);
    proof {
        if spec_parse_str_body(s@, pos as int) is Some {
            let t2 = spec_parse_str_body(s@, pos as int + 1)->0;
            assert(out@ =~= old(out)@ + (seq![c] + t2.0));
        }
    }
    r
}

fn digit_run_end_exec(s: &str, n: usize, pos: usize) -> (r: usize)
    requires
        n == s@.len(),
        pos <= n,
    ensures
        r as int == digit_run_end(s@, pos as int),
        pos <= r <= n,
    decreases n - pos,
{
    if pos < n {
        let c: char = s.get_char(pos);
        let u: u32 = c as u32;
        if 48 <= u && u <= 57 {
            return digit_run_end_exec(s, n, pos + 1);
        }
    }
    pos
}

fn digits_value(s: &str, n: usize, from: usize, to: usize) -> (r: Option<u64>)
    requires
        n == s@.len(),
        from <= to <= n,
        all_digits(s@.subrange(from as int, to as int)),
    ensures
        match r {
            Some(v) => v == seq_val(s@.subrange(from as int, to as int)),
            None => seq_val(s@.subrange(from as int, to as int)) > u64::MAX,
        },
    decreases to - from,
{
    if from == to {
        proof {
            assert(s@.subrange(from as int, to as int) =~= Seq::<char>::empty());
        }
        return Some(0);
    }
    proof {
        let full = s@.subrange(from as int, to as int);
        assert(full.drop_last() =~= s@.subrange(from as int, to as int - 1));
        assert(forall|i: int|
            0 <= i < to - 1 - from ==> s@.subrange(from as int, to as int - 1)[i] == full[i]);
    }
    let prev = digits_value(s, n, from, to - 1);
    let c: char = s.get_char(to - 1);
    proof {
        assert(s@.subrange(from as int, to as int).last() == c);
        assert(is_digit(c)) by {
            assert(s@.subrange(from as int, to as int)[to - 1 - from as int] == c);
        }
    }
    match prev {
        None => None,
        Some(v) => {
            let d: u64 = char_digit(c);
            let w: u128 = v as u128 * 10 + d as u128;
            if w > u64::MAX as u128 {
                None
            } else {
                Some(w as u64)
            }
        },
    }
}

pub proof fn lemma_digit_run(s: Seq<char>, pos: int)
    requires
        0 <= pos <= s.len(),
    ensures
        pos <= digit_run_end(s, pos) <= s.len(),
        all_digits(s.subrange(pos, digit_run_end(s, pos))),
        digit_run_end(s, pos) < s.len() ==> !is_digit(s[digit_run_end(s, pos)]),
    decreases s.len() - pos,
{
    let e = digit_run_end(s, pos);
    if pos < s.len() && is_digit(s[pos]) {
        lemma_digit_run(s, pos + 1);
        assert(forall|j: int| 0 <= j < e - pos ==> is_digit(#[trigger] s.subrange(pos, e)[j]))
            by {
            assert(s.subrange(pos, e)[0] == s[pos]);
            assert(forall|j: int|
                1 <= j < e - pos ==> #[trigger] s.subrange(pos, e)[j] == s.subrange(pos + 1, e)[j
                    - 1]);
        }
    } else {
        assert(s.subrange(pos, pos) =~= Seq::<char>::empty());
    }
}

pub proof fn lemma_seq_val_bound(s: Seq<char>)
    requires
        all_digits(s),
    ensures
        seq_val(s) < pow10(s.len()),
    decreases s.len(),
{
    if s.len() == 0 {
    } else {
        assert(all_digits(s.drop_last())) by {
            assert(forall|i: int| 0 <= i < s.len() - 1 ==> s.drop_last()[i] == s[i]);
        }
        lemma_seq_val_bound(s.drop_last());
        assert(is_digit(s.last()));
        assert(digit_val(s.last()) <= 9);
        assert(pow10(s.len()) == 10 * pow10((s.len() - 1) as nat));
    }
}

pub proof fn lemma_pow10_mul(a: nat, b: nat)
    ensures
        pow10(a) * pow10(b) == pow10(a + b),
    decreases a,
{
    if a == 0 {
        assert(pow10(a) == 1);
        assert(a + b == b);
        assert(pow10(a) * pow10(b) == pow10(b));
    } else {
        lemma_pow10_mul((a - 1) as nat, b);
        assert((a + b - 1) as nat == (a - 1) as nat + b);
        assert(pow10(a + b) == 10 * pow10((a - 1) as nat + b));
        assert(pow10(a) * pow10(b) == pow10(a + b)) by (nonlinear_arith)
            requires
                pow10(a) == 10 * pow10((a - 1) as nat),
                pow10((a - 1) as nat) * pow10(b) == pow10((a - 1) as nat + b),
                pow10(a + b) == 10 * pow10((a - 1) as nat + b),
        ;
    }
}

fn pow10_exec(k: usize) -> (r: u64)
    requires
        k <= 6,
    ensures
        r == pow10(k as nat),
        1 <= r <= 1000000,
    decreases k,
{
    proof {
        lemma_pow10_le6(k as nat);
    }
    if k == 0 {
        1
    } else {
        let p: u64 = pow10_exec(k - 1);
        10 * p
    }
}

proof fn lemma_pow10_le6(k: nat)
    requires
        k <= 6,
    ensures
        1 <= pow10(k) <= 1000000,
        pow10(6) == 1000000,
{
    assert(pow10(0) == 1);
    assert(pow10(1) == 10);
    assert(pow10(2) == 100);
    assert(pow10(3) == 1000);
    assert(pow10(4) == 10000);
    assert(pow10(5) == 100000);
    assert(pow10(6) == 1000000);
}

fn parse_number(s: &str, n: usize, pos: usize) -> (r: Option<(i64, usize)>)
    requires
        n == s@.len(),
        pos <= n,
    ensures
        match spec_parse_number(s@, pos as int) {
            Some(t) => r matches Some(v) && v.0 as int == t.0 && v.1 as int == t.1,
            None => r is None,
        },
        r matches Some(v) ==> pos <= v.1 <= n,
{
    let mut neg: bool = false;
    let mut p1: usize = pos;
    if pos < n {
        let c: char = s.get_char(pos);
        if c == '-' {
            neg = true;
            p1 = pos + 1;
        }
    }
    let ie: usize = digit_run_end_exec(s, n, p1);
    proof {
        lemma_digit_run(s@, p1 as int);
    }
    if ie == p1 {
        return None;
    }
    let ipv_opt = digits_value(s, n, p1, ie);
    let ghost ipv = seq_val(s@.subrange(p1 as int, ie as int));
    let mut fv: u64 = 0;
    let ghost spec_fv: nat = 0nat;
    let mut end: usize = ie;
    let mut frac_bad: bool = false;
    if ie < n {
        let c: char = s.get_char(ie);
        if c == '.' {
            let fe: usize = digit_run_end_exec(s, n, ie + 1);
            proof {
                lemma_digit_run(s@, ie as int + 1);
            }
            let flen: usize = fe - (ie + 1);
            if flen < 1 || flen > 6 {
                return None;
            }
            let fraw_opt = digits_value(s, n, ie + 1, fe);
            proof {
                lemma_seq_val_bound(s@.subrange(ie as int + 1, fe as int));
                lemma_pow10_le6(flen as nat);
                lemma_pow10_mul(flen as nat, (6 - flen) as nat);
            }
            let fraw: u64 = match fraw_opt {
                Some(v) => v,
                None => {
                    proof {
                        assert(false);
                    }
                    0
                },
            };
            let mult: u64 = pow10_exec(6 - flen);
            proof {
                lemma_pow10_le6(6);
                assert(fraw * mult < pow10(flen as nat) * pow10((6 - flen) as nat))
                    by (nonlinear_arith)
                    requires
                        fraw < pow10(flen as nat),
                        mult == pow10((6 - flen) as nat),
                        mult >= 1,
                ;
                assert(pow10(flen as nat) * pow10((6 - flen) as nat) == pow10(6));
            }
            fv = fraw * mult;
            proof {
                spec_fv = (fraw * mult) as nat;
            }
            end = fe;
        }
    }
    let ghost sp = spec_parse_number(s@, pos as int);
    match ipv_opt {
        None => {
            proof {
                assert(ipv * 1000000 + spec_fv >= ipv) by (nonlinear_arith)
                    requires
                        ipv >= 0,
                        spec_fv >= 0,
                ;
                assert(ipv > u64::MAX);
            }
            None
        },
        Some(ipv_e) => {
            let mag: u128 = ipv_e as u128 * 1000000 + fv as u128;
            if neg {
                if mag > 9223372036854775808u128 {
                    return None;
                }
                if mag == 9223372036854775808u128 {
                    Some((i64::MIN, end))
                } else {
                    Some((-(mag as i64), end))
                }
            } else {
                if mag > i64::MAX as u128 {
                    return None;
                }
                Some((mag as i64, end))
            }
        },
    }
}

/// Decodes the persisted file form; `None` means the text is not a
/// well-formed saved-location document.
pub fn parse_location(s: &str) -> (r: Option<(String, i64, i64)>)
    ensures
        match spec_parse_location(s@) {
            Some(t) => r matches Some(v) && v.0@ == t.0 && v.1 as int == t.1 && v.2 as int
                == t.2,
            None => r is None,
        },
{
    let n: usize = s.unicode_len();
    let e1: usize = match expect_lit(s, n, 0, "{\"name\":\"") {
        Some(e) => e,
        None => {
            return None;
        },
    };
    let mut name: String = String::new();
    let p: usize = match parse_str_body(s, n, e1, &mut name) {
        Some(p) => p,
        None => {
            return None;
        },
    };
    proof {
        lemma_str_body_bounds(s@, e1 as int);
    }
    let e2: usize = match expect_lit(s, n, p, "\",\"latLng\":[") {
        Some(e) => e,
        None => {
            return None;
        },
    };
    let lt = match parse_number(s, n, e2) {
        Some(v) => v,
        None => {
            return None;
        },
    };
    let e3: usize = match expect_lit(s, n, lt.1, ",") {
        Some(e) => e,
        None => {
            return None;
        },
    };
    let gt = match parse_number(s, n, e3) {
        Some(v) => v,
        None => {
            return None;
        },
    };
    let e4: usize = match expect_lit(s, n, gt.1, "]}") {
        Some(e) => e,
        None => {
            return None;
        },
    };
    if e4 != n {
        return None;
    }
    proof {
        let t = spec_parse_location(s@).unwrap();
        assert(name@ =~= Seq::<char>::empty() + t.0);
    }
    Some((name, lt.0, gt.0))
}

pub proof fn lemma_str_body_bounds(s: Seq<char>, pos: int)
    requires
        0 <= pos,
    ensures
        spec_parse_str_body(s, pos) matches Some(t) ==> pos <= t.1 < s.len(),
    decreases s.len() - pos,
{
    if pos < s.len() && s[pos] != '"' {
        if s[pos] == '\\' {
            if pos + 1 < s.len() && (s[pos + 1] == '"' || s[pos + 1] == '\\') {
                lemma_str_body_bounds(s, pos + 2);
            }
        } else {
            lemma_str_body_bounds(s, pos + 1);
        }
    }
}

pub proof fn lemma_frac6_val(fp: nat)
    requires
        fp < 1000000,
    ensures
        seq_val(frac6(fp)) == fp,
        all_digits(frac6(fp)),
{
    let f = frac6(fp);
    let d0 = fp / 100000 % 10;
    let d1 = fp / 10000 % 10;
    let d2 = fp / 1000 % 10;
    let d3 = fp / 100 % 10;
    let d4 = fp / 10 % 10;
    let d5 = fp % 10;
    lemma_digit_char(d0);
    lemma_digit_char(d1);
    lemma_digit_char(d2);
    lemma_digit_char(d3);
    lemma_digit_char(d4);
    lemma_digit_char(d5);
    assert(all_digits(f)) by {
        assert(f[0] == digit_char(d0));
        assert(f[1] == digit_char(d1));
        assert(f[2] == digit_char(d2));
        assert(f[3] == digit_char(d3));
        assert(f[4] == digit_char(d4));
        assert(f[5] == digit_char(d5));
    }
    let p5 = f.drop_last();
    let p4 = p5.drop_last();
    let p3 = p4.drop_last();
    let p2 = p3.drop_last();
    let p1 = p2.drop_last();
    let p0 = p1.drop_last();
    assert(p0 =~= Seq::<char>::empty());
    assert(seq_val(p0) == 0);
    assert(seq_val(p1) == d0);
    assert(seq_val(p2) == d0 * 10 + d1);
    assert(seq_val(p3) == seq_val(p2) * 10 + d2);
    assert(seq_val(p4) == seq_val(p3) * 10 + d3);
    assert(seq_val(p5) == seq_val(p4) * 10 + d4);
    assert(seq_val(f) == seq_val(p5) * 10 + d5);
    let x1 = fp / 10;
    let x2 = fp / 100;
    let x3 = fp / 1000;
    let x4 = fp / 10000;
    let x5 = fp / 100000;
    assert(fp / 100000 < 10) by (nonlinear_arith)
        requires
            fp < 1000000,
    ;
    assert(d0 == x5);
    vstd::arithmetic::div_mod::lemma_div_denominator(fp as int, 10000, 10);
    vstd::arithmetic::div_mod::lemma_div_denominator(fp as int, 1000, 10);
    vstd::arithmetic::div_mod::lemma_div_denominator(fp as int, 100, 10);
    vstd::arithmetic::div_mod::lemma_div_denominator(fp as int, 10, 10);
    assert(x4 / 10 == x5);
    assert(x3 / 10 == x4);
    assert(x2 / 10 == x3);
    assert(x1 / 10 == x2);
    vstd::arithmetic::div_mod::lemma_fundamental_div_mod(x4 as int, 10);
    vstd::arithmetic::div_mod::lemma_fundamental_div_mod(x3 as int, 10);
    vstd::arithmetic::div_mod::lemma_fundamental_div_mod(x2 as int, 10);
    vstd::arithmetic::div_mod::lemma_fundamental_div_mod(x1 as int, 10);
    vstd::arithmetic::div_mod::lemma_fundamental_div_mod(fp as int, 10);
    assert(seq_val(p2) == x4);
    assert(seq_val(p3) == x3);
    assert(seq_val(p4) == x2);
    assert(seq_val(p5) == x1);
    assert(seq_val(f) == fp);
}

pub proof fn lemma_trim(s: Seq<char>)
    requires
        all_digits(s),
    ensures
        trim_zeros(s).len() <= s.len(),
        all_digits(trim_zeros(s)),
        seq_val(s) == seq_val(trim_zeros(s)) * pow10((s.len() - trim_zeros(s).len()) as nat),
        trim_zeros(s).len() == 0 ==> seq_val(s) == 0,
    decreases s.len(),
{
    let t = trim_zeros(s);
    if s.len() > 0 && s.last() == '0' {
        let dl = s.drop_last();
        assert(all_digits(dl)) by {
            assert(forall|i: int| 0 <= i < dl.len() ==> dl[i] == s[i]);
        }
        lemma_trim(dl);
        assert(digit_val('0') == 0);
        assert(seq_val(s) == seq_val(dl) * 10);
        let k = (dl.len() - t.len()) as nat;
        assert(seq_val(dl) == seq_val(t) * pow10(k));
        assert(pow10(k + 1) == 10 * pow10(k));
        assert(seq_val(t) * pow10(k) * 10 == seq_val(t) * pow10(k + 1)) by (nonlinear_arith)
            requires
                pow10(k + 1) == 10 * pow10(k),
        ;
        assert((s.len() - t.len()) as nat == k + 1);
        assert(seq_val(s) == seq_val(t) * pow10(k + 1));
        if t.len() == 0 {
            assert(seq_val(t) == 0);
        }
    } else {
        assert(trim_zeros(s) == s);
        assert(pow10(0) == 1);
        assert(seq_val(s) * 1 == seq_val(s)) by (nonlinear_arith);
    }
}

pub proof fn lemma_digit_run_exact(s: Seq<char>, p: int, k: int)
    requires
        0 <= p,
        0 <= k,
        p + k <= s.len(),
        all_digits(s.subrange(p, p + k)),
        p + k == s.len() || !is_digit(s[p + k]),
    ensures
        digit_run_end(s, p) == p + k,
    decreases k,
{
    if k == 0 {
    } else {
        assert(is_digit(s[p])) by {
            assert(s.subrange(p, p + k)[0] == s[p]);
        }
        assert(all_digits(s.subrange(p + 1, p + k))) by {
            assert(forall|i: int|
                0 <= i < k - 1 ==> #[trigger] s.subrange(p + 1, p + k)[i] == s.subrange(p, p + k)[i
                    + 1]);
        }
        lemma_digit_run_exact(s, p + 1, k - 1);
    }
}

/// Decoding an escaped name that is followed by a quote yields the name
/// itself, with the position left on the quote.
pub proof fn lemma_parse_str_body_esc(s: Seq<char>, pos: int, name: Seq<char>)
    requires
        0 <= pos,
        pos + esc(name).len() < s.len(),
        s.subrange(pos, pos + esc(name).len() as int) == esc(name),
        s[pos + esc(name).len()] == '"',
    ensures
        spec_parse_str_body(s, pos) == Some((name, pos + esc(name).len() as int)),
    decreases name.len(),
{
    let e = esc(name);
    assert(forall|i: int| 0 <= i < e.len() ==> s[pos + i] == #[trigger] e[i]) by {
        assert(forall|i: int|
            0 <= i < e.len() ==> #[trigger] s.subrange(pos, pos + e.len() as int)[i] == s[pos
                + i]);
    }
    if name.len() == 0 {
        assert(e.len() == 0);
        assert(s[pos] == '"');
    } else {
        let c = name[0];
        let tail = name.subrange(1, name.len() as int);
        let e0 = esc_char(c);
        let e1 = esc(tail);
        assert(e == e0 + e1);
        assert(forall|i: int| 0 <= i < e1.len() ==> e[e0.len() + i] == #[trigger] e1[i]);
        assert(s.subrange(pos + e0.len(), pos + e0.len() + e1.len() as int) =~= e1) by {
            assert(forall|i: int|
                0 <= i < e1.len() ==> #[trigger] s.subrange(
                    pos + e0.len(),
                    pos + e0.len() + e1.len() as int,
                )[i] == s[pos + e0.len() + i]);
        }
        lemma_parse_str_body_esc(s, pos + e0.len() as int, tail);
        assert(seq![name[0]] + tail =~= name);
        if c == '"' || c == '\\' {
            assert(e0.len() == 2);
            assert(e[0] == e0[0] && e[1] == e0[1]);
            assert(s[pos] == e[0] && s[pos + 1] == e[1]);
            assert(s[pos] == '\\');
            assert(s[pos + 1] == c);
        } else {
            assert(e0.len() == 1);
            assert(e[0] == e0[0]);
            assert(s[pos] == e[0]);
            assert(s[pos] == c);
        }
    }
}

/// Decoding a rendered coordinate that is followed by a terminator yields
/// the coordinate back.
pub proof fn lemma_parse_coord(s: Seq<char>, pos: int, m: int)
    requires
        i64::MIN <= m <= i64::MAX,
        0 <= pos,
        pos + coord_chars(m).len() < s.len(),
        s.subrange(pos, pos + coord_chars(m).len() as int) == coord_chars(m),
        !is_digit(s[pos + coord_chars(m).len()]),
        s[pos + coord_chars(m).len()] != '.',
    ensures
        spec_parse_number(s, pos) == Some((m, pos + coord_chars(m).len() as int)),
{
    let c = coord_chars(m);
    let a = abs_i(m);
    let ip = (a / 1000000) as nat;
    let fp = (a % 1000000) as nat;
    let d = digits_of(ip);
    let sgn: int = if m < 0 {
        1
    } else {
        0
    };
    lemma_digits_of(ip);
    assert(forall|i: int| 0 <= i < c.len() ==> s[pos + i] == #[trigger] c[i]) by {
        assert(forall|i: int|
            0 <= i < c.len() ==> #[trigger] s.subrange(pos, pos + c.len() as int)[i] == s[pos
                + i]);
    }
    let p1 = pos + sgn;
    let sign_seq: Seq<char> = if m < 0 {
        seq!['-']
    } else {
        Seq::<char>::empty()
    };
    let sd = sign_seq + d;
    let t = trim_zeros(frac6(fp));
    if fp == 0 {
        assert(c == sd);
    } else {
        assert(c == sd + seq!['.'] + t);
    }
    assert forall|i: int| 0 <= i < d.len() implies s[p1 + i] == #[trigger] d[i] by {
        assert(sd[sgn + i] == d[i]);
        if fp != 0 {
            assert((sd + seq!['.'])[sgn + i] == sd[sgn + i]);
            assert(c[sgn + i] == (sd + seq!['.'])[sgn + i]);
        } else {
            assert(c[sgn + i] == sd[sgn + i]);
        }
        assert(s[pos + (sgn + i)] == c[sgn + i]);
        assert(p1 + i == pos + (sgn + i));
    }
    if m < 0 {
        assert(sd[0] == '-');
        if fp != 0 {
            assert((sd + seq!['.'])[0] == sd[0]);
            assert(c[0] == (sd + seq!['.'])[0]);
        } else {
            assert(c[0] == sd[0]);
        }
        assert(s[pos + 0] == c[0]);
        assert(s[pos] == '-');
    } else {
        assert(s[pos] == d[0]);
        assert(is_digit(d[0]));
        assert(s[pos] != '-');
    }
    let ie = p1 + d.len();
    assert(s.subrange(p1, ie) =~= d) by {
        assert(forall|i: int|
            0 <= i < d.len() ==> #[trigger] s.subrange(p1, ie as int)[i] == s[p1 + i]);
    }
    if fp == 0 {
        assert(c.len() == sgn + d.len());
        lemma_digit_run_exact(s, p1, d.len() as int);
        assert(digit_run_end(s, p1) == ie);
        assert(ie != p1);
        assert(seq_val(s.subrange(p1, ie)) == ip);
        assert(ie < s.len() && s[ie] != '.');
        vstd::arithmetic::div_mod::lemma_fundamental_div_mod(a, 1000000);
        assert(ip * 1000000 + 0 == a);
        assert(spec_num_value(m < 0, ip, 0, ie) == Some((m, pos + c.len() as int)));
    } else {
        lemma_frac6_val(fp);
        lemma_trim(frac6(fp));
        let flen = t.len() as int;
        assert(flen >= 1) by {
            if t.len() == 0 {
                assert(seq_val(frac6(fp)) == 0);
            }
        }
        assert(flen <= 6);
        assert(c =~= (if m < 0 {
            seq!['-']
        } else {
            Seq::<char>::empty()
        }) + d + seq!['.'] + t);
        assert(c.len() == sgn + d.len() + 1 + flen);
        assert(s[ie] == c[sgn + d.len()]);
        assert(c[sgn + d.len()] == '.');
        lemma_digit_run_exact(s, p1, d.len() as int);
        assert(digit_run_end(s, p1) == ie);
        assert(ie != p1);
        assert(seq_val(s.subrange(p1, ie)) == ip);
        let fe = ie + 1 + flen;
        assert forall|i: int| 0 <= i < flen implies s[ie + 1 + i] == #[trigger] t[i] by {
            assert(((sd + seq!['.']) + t)[sd.len() + 1 + i] == t[i]);
            assert(c[sgn + d.len() + 1 + i] == t[i]);
            assert(s[pos + (sgn + d.len() + 1 + i)] == c[sgn + d.len() + 1 + i]);
            assert(ie + 1 + i == pos + (sgn + d.len() + 1 + i));
        }
        assert(s.subrange(ie + 1, fe) =~= t) by {
            assert(forall|i: int|
                0 <= i < flen ==> #[trigger] s.subrange(ie + 1, fe)[i] == s[ie + 1 + i]);
        }
        lemma_digit_run_exact(s, ie + 1, flen);
        assert(digit_run_end(s, ie + 1) == fe);
        assert(seq_val(t) * pow10((6 - flen) as nat) == fp);
        vstd::arithmetic::div_mod::lemma_fundamental_div_mod(a, 1000000);
        assert(ip * 1000000 + fp == a);
        assert(spec_num_value(m < 0, ip, fp, fe) == Some((m, pos + c.len() as int)));
    }
}

pub proof fn lemma_subrange_of_concat(x: Seq<char>, y: Seq<char>, z: Seq<char>)
    ensures
        (x + y + z).subrange(x.len() as int, x.len() + y.len() as int) == y,
{
    assert((x + y + z).subrange(x.len() as int, x.len() + y.len() as int) =~= y);
}

/// Decoding a rendered document yields exactly the name and coordinates
/// that were rendered: the persisted form loses nothing.
#[verifier::rlimit(100)]
pub proof fn lemma_render_parse(name: Seq<char>, lat: int, lng: int)
    requires
        i64::MIN <= lat <= i64::MAX,
        i64::MIN <= lng <= i64::MAX,
    ensures
        spec_parse_location(render_chars(name, lat, lng)) == Some((name, lat, lng)),
{
    reveal_strlit("{\"name\":\"");
    reveal_strlit("\",\"latLng\":[");
    reveal_strlit(",");
    reveal_strlit("]}");
    let l1 = "{\"name\":\""@;
    let l2 = "\",\"latLng\":["@;
    let l3 = ","@;
    let l4 = "]}"@;
    let e = esc(name);
    let c1 = coord_chars(lat);
    let c2 = coord_chars(lng);
    let s = render_chars(name, lat, lng);
    assert(s =~= l1 + e + l2 + c1 + l3 + c2 + l4);
    let q1 = l1.len() as int;
    let q2 = q1 + e.len() as int;
    let q3 = q2 + l2.len() as int;
    let q4 = q3 + c1.len() as int;
    let q5 = q4 + l3.len() as int;
    let q6 = q5 + c2.len() as int;
    assert(s.len() == q6 + l4.len());
    assert(s =~= Seq::<char>::empty() + l1 + (e + l2 + c1 + l3 + c2 + l4));
    lemma_subrange_of_concat(Seq::<char>::empty(), l1, e + l2 + c1 + l3 + c2 + l4);
    assert(s.subrange(0, q1) == l1);
    assert(lit_at(s, 0, l1));
    assert(s =~= l1 + e + (l2 + c1 + l3 + c2 + l4));
    lemma_subrange_of_concat(l1, e, l2 + c1 + l3 + c2 + l4);
    assert(s =~= (l1 + e) + l2 + (c1 + l3 + c2 + l4));
    lemma_subrange_of_concat(l1 + e, l2, c1 + l3 + c2 + l4);
    assert(s =~= (l1 + e + l2) + c1 + (l3 + c2 + l4));
    lemma_subrange_of_concat(l1 + e + l2, c1, l3 + c2 + l4);
    assert(s =~= (l1 + e + l2 + c1) + l3 + (c2 + l4));
    lemma_subrange_of_concat(l1 + e + l2 + c1, l3, c2 + l4);
    assert(s =~= (l1 + e + l2 + c1 + l3) + c2 + l4);
    lemma_subrange_of_concat(l1 + e + l2 + c1 + l3, c2, l4);
    assert(s =~= (l1 + e + l2 + c1 + l3 + c2) + l4 + Seq::<char>::empty());
    lemma_subrange_of_concat(l1 + e + l2 + c1 + l3 + c2, l4, Seq::<char>::empty());
    // the name: its escape ends at the quote that opens the second literal
    assert(s[q2] == l2[0]) by {
        assert(s.subrange(q2, q3)[0] == s[q2]);
    }
    lemma_parse_str_body_esc(s, q1, name);
    assert(spec_parse_str_body(s, q1) == Some((name, q2)));
    assert(lit_at(s, q2, l2));
    // the first coordinate ends at the comma
    assert(s[q4] == l3[0]) by {
        assert(s.subrange(q4, q5)[0] == s[q4]);
    }
    assert(!is_digit(',') && ',' != '.');
    lemma_parse_coord(s, q3, lat);
    assert(lit_at(s, q4, l3));
    // the second coordinate ends at the closing bracket
    assert(s[q6] == l4[0]) by {
        assert(s.subrange(q6, q6 + 2)[0] == s[q6]);
    }
    assert(!is_digit(']') && ']' != '.');
    lemma_parse_coord(s, q5, lng);
    assert(lit_at(s, q6, l4));
    assert(q6 + l4.len() == s.len());
}

} // verus!
