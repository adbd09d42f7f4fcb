//! Byte-sequence helpers shared by the parser, router and serializer:
//! whitespace handling, line and token splitting, case folding, and
//! decimal rendering/reading for `Content-Length` and status codes.

use vstd::prelude::*;

verus! {

pub const CR: u8 = 13;

pub const LF: u8 = 10;

pub const SP: u8 = 32;

pub const TAB: u8 = 9;

pub const COLON: u8 = 58;

pub const SLASH: u8 = 47;

pub const QUESTION: u8 = 63;

/// Whitespace that line tokenization and header trimming strip.
pub open spec fn is_ws(b: u8) -> bool {
    b == SP || b == TAB
}

pub open spec fn is_digit(b: u8) -> bool {
    48 <= b && b <= 57
}

/// ASCII lower-casing of one byte.
pub open spec fn lower_byte(b: u8) -> u8 {
    if 65 <= b && b <= 90 {
        (b + 32) as u8
    } else {
        b
    }
}

/// ASCII lower-casing of a byte sequence, for case-insensitive header names.
pub open spec fn lower(s: Seq<u8>) -> Seq<u8> {
    s.map_values(|b: u8| lower_byte(b))
}

/// Byte-for-byte equality of two vectors.
pub fn bytes_eq(a: &Vec<u8>, b: &Vec<u8>) -> (r: bool)
    ensures
        r == (a@ == b@),
{
    if a.len() != b.len() {
        return false;
    }
    let mut i: usize = 0;
    while i < a.len()
        invariant
            i <= a.len(),
            a.len() == b.len(),
            forall|j: int| 0 <= j < i ==> a@[j] == b@[j],
        decreases a.len() - i,
    {
        if a[i] != b[i] {
            return false;
        }
        i += 1;
    }
    proof {
        assert(a@ =~= b@);
    }
    true
}

/// ASCII lower-casing of a byte vector.
pub fn lower_vec(v: &Vec<u8>) -> (r: Vec<u8>)
    ensures
        r@ == lower(v@),
{
    let mut r: Vec<u8> = Vec::new();
    let mut i: usize = 0;
    while i < v.len()
        invariant
            i <= v.len(),
            r@.len() == i,
            forall|j: int| 0 <= j < i ==> r@[j] == lower_byte(v@[j]),
        decreases v.len() - i,
    {
        let b = v[i];
        if 65 <= b && b <= 90 {
            r.push(b + 32);
        } else {
            r.push(b);
        }
        i += 1;
    }
    proof {
        assert(r@ =~= lower(v@));
    }
    r
}

/// Index of the first occurrence of `b` in `s`.
pub open spec fn spec_find(s: Seq<u8>, b: u8) -> Option<int>
    decreases s.len(),
{
    if s.len() == 0 {
        None
    } else if s[0] == b {
        Some(0)
    } else {
        match spec_find(s.skip(1), b) {
            Some(i) => Some(i + 1),
            None => None,
        }
    }
}

pub proof fn lemma_find_at(s: Seq<u8>, b: u8, i: int)
    requires
        0 <= i < s.len(),
        s[i] == b,
        forall|j: int| 0 <= j < i ==> s[j] != b,
    ensures
        spec_find(s, b) == Some(i),
    decreases i,
{
    if i == 0 {
    } else {
        lemma_find_at(s.skip(1), b, i - 1);
    }
}

pub proof fn lemma_find_none(s: Seq<u8>, b: u8)
    requires
        forall|j: int| 0 <= j < s.len() ==> s[j] != b,
    ensures
        spec_find(s, b) is None,
    decreases s.len(),
{
    if s.len() > 0 {
        lemma_find_none(s.skip(1), b);
    }
}

/// First occurrence of `b` in `v`.
pub fn find_byte(v: &Vec<u8>, b: u8) -> (r: Option<usize>)
    ensures
        match r {
            Some(i) => spec_find(v@, b) == Some(i as int) && i < v.len(),
            None => spec_find(v@, b) is None,
        },
{
    let mut i: usize = 0;
    while i < v.len()
        invariant
            i <= v.len(),
            forall|j: int| 0 <= j < i ==> v@[j] != b,
        decreases v.len() - i,
    {
        if v[i] == b {
            proof {
                lemma_find_at(v@, b, i as int);
            }
            return Some(i);
        }
        i += 1;
    }
    proof {
        lemma_find_none(v@, b);
    }
    None
}

pub open spec fn all_digits(s: Seq<u8>) -> bool {
    forall|i: int| 0 <= i < s.len() ==> is_digit(s[i])
}

/// Value of a sequence of ASCII digits read as a decimal number.
pub open spec fn dec_val(s: Seq<u8>) -> int
    decreases s.len(),
{
    if s.len() == 0 {
        0
    } else {
        dec_val(s.take(s.len() - 1)) * 10 + (s[s.len() - 1] - 48)
    }
}

/// Decimal digits of a non-negative number, most significant first.
pub open spec fn dec_of(n: nat) -> Seq<u8>
    decreases n,
{
    if n < 10 {
        seq![(48 + n) as u8]
    } else {
        dec_of(n / 10) + seq![(48 + n % 10) as u8]
    }
}

/// Rendering a number and reading it back yields the number, and the
/// rendering is all digits.
pub proof fn lemma_dec_of_val(n: nat)
    ensures
        all_digits(dec_of(n)),
        dec_val(dec_of(n)) == n,
        dec_of(n).len() >= 1,
    decreases n,
{
    if n < 10 {
        let s = dec_of(n);
        assert(s == seq![(48 + n) as u8]);
        assert(s.take(0) =~= Seq::<u8>::empty());
        assert(dec_val(s) == dec_val(s.take(0)) * 10 + (s[0] - 48));
        assert(s[0] == (48 + n) as u8);
        assert(dec_val(s) == n);
    } else {
        lemma_dec_of_val(n / 10);
        let prefix = dec_of(n / 10);
        let whole = dec_of(n);
        assert(whole == prefix + seq![(48 + n % 10) as u8]);
        assert(whole.take(whole.len() - 1) =~= prefix);
        assert(whole[whole.len() - 1] == (48 + n % 10) as u8);
        assert(dec_val(whole) == dec_val(prefix) * 10 + (n % 10));
        assert(dec_val(prefix) == n / 10);
        assert((n / 10) * 10 + n % 10 == n) by (nonlinear_arith);
        assert(forall|i: int| 0 <= i < whole.len() ==> is_digit(whole[i])) by {
            assert(forall|i: int| 0 <= i < prefix.len() ==> whole[i] == prefix[i]);
            assert(is_digit(whole[whole.len() - 1]));
        }
    }
}

/// A longer digit string never reads as a smaller number.
pub proof fn lemma_dec_val_prefix_le(s: Seq<u8>, i: int)
    requires
        0 <= i <= s.len(),
        all_digits(s),
    ensures
        dec_val(s.take(i)) <= dec_val(s),
        dec_val(s) >= 0,
    decreases s.len(),
{
    if s.len() == 0 {
        assert(s.take(i) =~= s);
    } else if i == s.len() {
        assert(s.take(i) =~= s);
        lemma_dec_val_prefix_le(s.take(s.len() - 1), s.len() - 1);
        assert(s.take(s.len() - 1).take(s.len() - 1) =~= s.take(s.len() - 1));
    } else {
        let shorter = s.take(s.len() - 1);
        assert(all_digits(shorter));
        assert(shorter.take(i) =~= s.take(i));
        lemma_dec_val_prefix_le(shorter, i);
        assert(dec_val(s) == dec_val(shorter) * 10 + (s[s.len() - 1] - 48));
        assert(dec_val(shorter) * 10 >= dec_val(shorter)) by (nonlinear_arith)
            requires dec_val(shorter) >= 0;
    }
}

/// Reads `v` as a decimal number.  Returns the value exactly when `v` is a
/// non-empty digit string whose value is at most `max`.
pub fn parse_dec(v: &Vec<u8>, max: usize) -> (r: Option<usize>)
    ensures
        match r {
            Some(n) => v@.len() > 0 && all_digits(v@) && dec_val(v@) == n && n <= max,
            None => !(v@.len() > 0 && all_digits(v@) && dec_val(v@) <= max),
        },
{
    if v.len() == 0 {
        return None;
    }
    let mut acc: usize = 0;
    let mut i: usize = 0;
    while i < v.len()
        invariant
            i <= v.len(),
            v.len() > 0,
            all_digits(v@.take(i as int)),
            acc == dec_val(v@.take(i as int)),
            acc <= max,
        decreases v.len() - i,
    {
        let b = v[i];
        if b < 48 || b > 57 {
            assert(!is_digit(v@[i as int]));
            return None;
        }
        let d = (b - 48) as usize;
        proof {
            assert(v@.take(i + 1).take(i as int) =~= v@.take(i as int));
            assert(dec_val(v@.take(i + 1)) == acc * 10 + d);
        }
        if acc > max / 10 {
            proof {
                assert(acc * 10 + d > max) by (nonlinear_arith)
                    requires acc > max / 10, max / 10 == ((max as int) - (max as int) % 10) / 10, 0 <= (max as int) % 10 < 10, d >= 0;
                if all_digits(v@) {
                    lemma_dec_val_prefix_le(v@, i + 1);
                }
            }
            return None;
        }
        let acc10 = acc * 10;
        proof {
            assert(acc * 10 <= max) by (nonlinear_arith)
                requires acc <= max / 10, max / 10 == ((max as int) - (max as int) % 10) / 10, 0 <= (max as int) % 10 < 10;
        }
        if d > max - acc10 {
            proof {
                if all_digits(v@) {
                    lemma_dec_val_prefix_le(v@, i + 1);
                }
            }
            return None;
        }
        acc = acc10 + d;
        i += 1;
    }
    proof {
        assert(v@.take(v@.len() as int) =~= v@);
    }
    Some(acc)
}

/// Decimal rendering of a number, most significant digit first.
pub fn format_dec(n: usize) -> (r: Vec<u8>)
    ensures
        r@ == dec_of(n as nat),
    decreases n,
{
    if n < 10 {
        let b = 48 + (n as u8);
        let r = vec![b];
        proof {
            assert(r@ =~= dec_of(n as nat));
        }
        r
    } else {
        let mut r = format_dec(n / 10);
        let d = 48 + ((n % 10) as u8);
        r.push(d);
        proof {
            assert(r@ =~= dec_of(n as nat));
        }
        r
    }
}

} // verus!

verus! {

/// Splits off the first CRLF-terminated line: `Some((line, rest))` when the
/// sequence holds a CRLF, with `line` the bytes before the first one and
/// `rest` the bytes after it.
pub open spec fn spec_take_line(s: Seq<u8>) -> Option<(Seq<u8>, Seq<u8>)>
    decreases s.len(),
{
    if s.len() < 2 {
        None
    } else if s[0] == CR && s[1] == LF {
        Some((Seq::empty(), s.skip(2)))
    } else {
        match spec_take_line(s.skip(1)) {
            Some(p) => Some((seq![s[0]] + p.0, p.1)),
            None => None,
        }
    }
}

/// A taken line, its terminator and the rest reassemble the input.
pub proof fn lemma_take_line_parts(s: Seq<u8>)
    ensures
        match spec_take_line(s) {
            Some(p) => s == p.0 + seq![CR, LF] + p.1 && p.0.len() + 2 + p.1.len() == s.len(),
            None => true,
        },
    decreases s.len(),
{
    if s.len() < 2 {
    } else if s[0] == CR && s[1] == LF {
        match spec_take_line(s) {
            Some(p) => {
                assert(s =~= p.0 + seq![CR, LF] + p.1);
            },
            None => {},
        }
    } else {
        lemma_take_line_parts(s.skip(1));
        match spec_take_line(s.skip(1)) {
            Some(p) => {
                let t = s.skip(1);
                assert(s =~= seq![s[0]] + t);
                assert(seq![s[0]] + (p.0 + seq![CR, LF] + p.1) =~= (seq![s[0]] + p.0) + seq![
                    CR,
                    LF,
                ] + p.1);
            },
            None => {},
        }
    }
}

/// Taking a line from text assembled as `line CRLF rest` gives back `line`
/// and `rest`, provided `line` itself holds no line feed.
pub proof fn lemma_take_line_of_append(line: Seq<u8>, rest: Seq<u8>)
    requires
        forall|j: int| 0 <= j < line.len() ==> line[j] != LF,
    ensures
        spec_take_line(line + seq![CR, LF] + rest) == Some((line, rest)),
    decreases line.len(),
{
    let s = line + seq![CR, LF] + rest;
    if line.len() == 0 {
        assert(s[0] == CR && s[1] == LF);
        assert(s.skip(2) =~= rest);
        assert(spec_take_line(s) == Some((Seq::<u8>::empty(), s.skip(2))));
        assert(line =~= Seq::<u8>::empty());
    } else {
        assert(s[0] == line[0]);
        if s[0] == CR && s[1] == LF {
            assert(line.len() >= 2 ==> s[1] == line[1]);
            assert(line.len() == 1 ==> s[1] == CR);
            assert(false);
        }
        assert(forall|j: int|
            0 <= j < line.len() - 1 ==> #[trigger] line.skip(1)[j] == line[j + 1] && line.skip(1)[j]
                != LF);
        lemma_take_line_of_append(line.skip(1), rest);
        assert(s.skip(1) =~= line.skip(1) + seq![CR, LF] + rest);
        assert(spec_take_line(s.skip(1)) == Some((line.skip(1), rest)));
        assert(seq![s[0]] + line.skip(1) =~= line);
    }
}

pub proof fn lemma_take_line_at(s: Seq<u8>, i: int)
    requires
        0 <= i,
        i + 1 < s.len(),
        s[i] == CR,
        s[i + 1] == LF,
        forall|j: int| 0 <= j < i ==> !(#[trigger] s[j] == CR && s[j + 1] == LF),
    ensures
        spec_take_line(s) == Some((s.take(i), s.skip(i + 2))),
    decreases i,
{
    if i == 0 {
        assert(s.take(0) =~= Seq::<u8>::empty());
    } else {
        assert(!(s[0] == CR && s[1] == LF));
        let t = s.skip(1);
        assert(forall|j: int|
            0 <= j < t.len() ==> #[trigger] t[j] == s[j + 1]);
        assert(forall|j: int| 0 <= j < i - 1 ==> !(#[trigger] t[j] == CR && t[j + 1] == LF));
        lemma_take_line_at(t, i - 1);
        assert(spec_take_line(t) == Some((t.take(i - 1), t.skip(i + 1))));
        assert(seq![s[0]] + t.take(i - 1) =~= s.take(i));
        assert(t.skip(i + 1) =~= s.skip(i + 2));
    }
}

pub proof fn lemma_take_line_none(s: Seq<u8>)
    requires
        forall|j: int| 0 <= j && j + 1 < s.len() ==> !(#[trigger] s[j] == CR && s[j + 1] == LF),
    ensures
        spec_take_line(s) is None,
    decreases s.len(),
{
    if s.len() < 2 {
    } else {
        let t = s.skip(1);
        assert(forall|j: int| 0 <= j < t.len() ==> #[trigger] t[j] == s[j + 1]);
        assert(forall|j: int| 0 <= j && j + 1 < t.len() ==> !(#[trigger] t[j] == CR && t[j + 1] == LF));
        lemma_take_line_none(t);
    }
}

/// Reads the first CRLF-terminated line of `input` at byte offset `pos`,
/// returning the line's bytes and the offset just past its terminator.
pub fn take_line(input: &Vec<u8>, pos: usize) -> (r: Option<(Vec<u8>, usize)>)
    requires
        pos <= input.len(),
    ensures
        match r {
            Some(p) => {
                &&& spec_take_line(input@.skip(pos as int)) == Some(
                    (p.0@, input@.skip(p.1 as int)),
                )
                &&& pos < p.1 <= input.len()
            },
            None => spec_take_line(input@.skip(pos as int)) is None,
        },
{
    let ghost s = input@.skip(pos as int);
    let mut i: usize = pos;
    while input.len() >= 1 && i < input.len() - 1
        invariant
            pos <= i <= input.len(),
            s == input@.skip(pos as int),
            forall|k: int| pos <= k < i ==> !(#[trigger] input@[k] == CR && input@[k + 1] == LF),
        decreases input.len() - i,
    {
        if input[i] == CR && input[i + 1] == LF {
            let mut line: Vec<u8> = Vec::new();
            let mut j: usize = pos;
            while j < i
                invariant
                    pos <= j <= i,
                    i + 1 < input.len(),
                    line@ == input@.subrange(pos as int, j as int),
                decreases i - j,
            {
                let b = input[j];
                line.push(b);
                proof {
                    assert(line@ =~= input@.subrange(pos as int, j + 1));
                }
                j += 1;
            }
            proof {
                assert(forall|j2: int|
                    0 <= j2 < s.len() ==> #[trigger] s[j2] == input@[pos + j2]);
                assert(forall|j2: int|
                    0 <= j2 < i - pos ==> !(#[trigger] s[j2] == CR && s[j2 + 1] == LF));
                lemma_take_line_at(s, i - pos);
                assert(line@ =~= s.take(i - pos));
                assert(s.skip(i - pos + 2) =~= input@.skip(i + 2));
            }
            return Some((line, i + 2));
        }
        i += 1;
    }
    proof {
        assert(forall|j2: int| 0 <= j2 < s.len() ==> #[trigger] s[j2] == input@[pos + j2]);
        assert(forall|j2: int| 0 <= j2 && j2 + 1 < s.len() ==> !(#[trigger] s[j2] == CR && s[j2 + 1] == LF));
        lemma_take_line_none(s);
    }
    None
}

/// Text after dropping leading whitespace.
pub open spec fn spec_skip_ws(s: Seq<u8>) -> Seq<u8>
    decreases s.len(),
{
    if s.len() > 0 && is_ws(s[0]) {
        spec_skip_ws(s.skip(1))
    } else {
        s
    }
}

/// The run of non-whitespace bytes at the front of `s`.
pub open spec fn spec_take_tok(s: Seq<u8>) -> Seq<u8>
    decreases s.len(),
{
    if s.len() > 0 && !is_ws(s[0]) {
        seq![s[0]] + spec_take_tok(s.skip(1))
    } else {
        Seq::empty()
    }
}

/// The first whitespace-separated token of `s`, and the text after it.
pub open spec fn spec_token(s: Seq<u8>) -> (Seq<u8>, Seq<u8>) {
    let t = spec_skip_ws(s);
    (spec_take_tok(t), t.skip(spec_take_tok(t).len() as int))
}

pub proof fn lemma_skip_ws_at(s: Seq<u8>, a: int)
    requires
        0 <= a <= s.len(),
        forall|j: int| 0 <= j < a ==> is_ws(s[j]),
        a == s.len() || !is_ws(s[a]),
    ensures
        spec_skip_ws(s) == s.skip(a),
    decreases a,
{
    if a == 0 {
        assert(s.skip(0) =~= s);
    } else {
        let t = s.skip(1);
        assert(forall|j: int| 0 <= j < t.len() ==> #[trigger] t[j] == s[j + 1]);
        lemma_skip_ws_at(t, a - 1);
        assert(t.skip(a - 1) =~= s.skip(a));
    }
}

pub proof fn lemma_take_tok_at(s: Seq<u8>, a: int)
    requires
        0 <= a <= s.len(),
        forall|j: int| 0 <= j < a ==> !is_ws(s[j]),
        a == s.len() || is_ws(s[a]),
    ensures
        spec_take_tok(s) == s.take(a),
    decreases a,
{
    if a == 0 {
        assert(s.take(0) =~= Seq::<u8>::empty());
    } else {
        let t = s.skip(1);
        assert(forall|j: int| 0 <= j < t.len() ==> #[trigger] t[j] == s[j + 1]);
        lemma_take_tok_at(t, a - 1);
        assert(seq![s[0]] + t.take(a - 1) =~= s.take(a));
    }
}

/// Reads the next whitespace-separated token of `line` at offset `pos`:
/// the token's bytes and the offset just past it.
pub fn next_token(line: &Vec<u8>, pos: usize) -> (r: (Vec<u8>, usize))
    requires
        pos <= line.len(),
    ensures
        r.0@ == spec_token(line@.skip(pos as int)).0,
        line@.skip(r.1 as int) == spec_token(line@.skip(pos as int)).1,
        pos <= r.1 <= line.len(),
{
    let ghost s = line@.skip(pos as int);
    let mut i: usize = pos;
    while i < line.len() && (line[i] == SP || line[i] == TAB)
        invariant
            pos <= i <= line.len(),
            forall|j: int| pos <= j < i ==> is_ws(line@[j]),
        decreases line.len() - i,
    {
        i += 1;
    }
    proof {
        assert(forall|j2: int| 0 <= j2 < s.len() ==> #[trigger] s[j2] == line@[pos + j2]);
        lemma_skip_ws_at(s, i - pos);
        assert(spec_skip_ws(s) == s.skip(i - pos));
        assert(s.skip(i - pos) =~= line@.skip(i as int));
    }
    let start = i;
    let mut tok: Vec<u8> = Vec::new();
    while i < line.len() && line[i] != SP && line[i] != TAB
        invariant
            start <= i <= line.len(),
            tok@ == line@.subrange(start as int, i as int),
            forall|j: int| start <= j < i ==> !is_ws(line@[j]),
        decreases line.len() - i,
    {
        let b = line[i];
        tok.push(b);
        proof {
            assert(tok@ =~= line@.subrange(start as int, i + 1));
        }
        i += 1;
    }
    proof {
        let t = line@.skip(start as int);
        assert(forall|j2: int| 0 <= j2 < t.len() ==> #[trigger] t[j2] == line@[start + j2]);
        lemma_take_tok_at(t, i - start);
        assert(spec_take_tok(t) == t.take(i - start));
        assert(tok@ =~= t.take(i - start));
        assert(t.skip(tok@.len() as int) =~= line@.skip(i as int));
    }
    (tok, i)
}

/// Text after dropping trailing whitespace.
pub open spec fn spec_trim_end(s: Seq<u8>) -> Seq<u8>
    decreases s.len(),
{
    if s.len() > 0 && is_ws(s[s.len() - 1]) {
        spec_trim_end(s.take(s.len() - 1))
    } else {
        s
    }
}

/// Text with surrounding whitespace removed, as header parsing applies it
/// to names and values.
pub open spec fn spec_trim(s: Seq<u8>) -> Seq<u8> {
    spec_trim_end(spec_skip_ws(s))
}

pub proof fn lemma_trim_end_at(s: Seq<u8>, b: int)
    requires
        0 <= b <= s.len(),
        forall|j: int| b <= j < s.len() ==> is_ws(s[j]),
        b == 0 || !is_ws(s[b - 1]),
    ensures
        spec_trim_end(s) == s.take(b),
    decreases s.len(),
{
    if b == s.len() {
        assert(s.take(b) =~= s);
    } else {
        let t = s.take(s.len() - 1);
        assert(forall|j: int| 0 <= j < t.len() ==> #[trigger] t[j] == s[j]);
        lemma_trim_end_at(t, b);
        assert(t.take(b) =~= s.take(b));
    }
}

/// `v` with surrounding whitespace removed.
pub fn trim(v: &Vec<u8>) -> (r: Vec<u8>)
    ensures
        r@ == spec_trim(v@),
{
    let mut a: usize = 0;
    while a < v.len() && (v[a] == SP || v[a] == TAB)
        invariant
            a <= v.len(),
            forall|j: int| 0 <= j < a ==> is_ws(v@[j]),
        decreases v.len() - a,
    {
        a += 1;
    }
    let mut b: usize = v.len();
    while b > a && (v[b - 1] == SP || v[b - 1] == TAB)
        invariant
            a <= b <= v.len(),
            forall|j: int| b <= j < v.len() ==> is_ws(v@[j]),
        decreases b,
    {
        b -= 1;
    }
    let mut r: Vec<u8> = Vec::new();
    let mut j: usize = a;
    while j < b
        invariant
            a <= j <= b <= v.len(),
            r@ == v@.subrange(a as int, j as int),
        decreases b - j,
    {
        let x = v[j];
        r.push(x);
        proof {
            assert(r@ =~= v@.subrange(a as int, j + 1));
        }
        j += 1;
    }
    proof {
        lemma_skip_ws_at(v@, a as int);
        let t = v@.skip(a as int);
        assert(forall|j2: int| 0 <= j2 < t.len() ==> #[trigger] t[j2] == v@[a + j2]);
        lemma_trim_end_at(t, b - a);
        assert(spec_trim_end(t) == t.take(b - a));
        assert(r@ =~= t.take(b - a));
    }
    r
}

/// Splits `s` on a separator byte, keeping empty parts, as path and
/// pattern segmentation does with `/`.
pub open spec fn spec_split(s: Seq<u8>, sep: u8) -> Seq<Seq<u8>>
    decreases s.len(),
{
    if s.len() == 0 {
        seq![Seq::empty()]
    } else if s[0] == sep {
        seq![Seq::<u8>::empty()] + spec_split(s.skip(1), sep)
    } else {
        let r = spec_split(s.skip(1), sep);
        seq![seq![s[0]] + r[0]] + r.skip(1)
    }
}

pub proof fn lemma_split_nonempty(s: Seq<u8>, sep: u8)
    ensures
        spec_split(s, sep).len() >= 1,
    decreases s.len(),
{
    if s.len() > 0 {
        lemma_split_nonempty(s.skip(1), sep);
    }
}

/// The parts of `spec_split`, but with a given first part extended to the
/// front of the first split part.
pub open spec fn prepend_first(c: Seq<u8>, parts: Seq<Seq<u8>>) -> Seq<Seq<u8>> {
    seq![c + parts[0]] + parts.skip(1)
}

/// Splits `v` on the separator byte, keeping empty parts.
pub fn split_byte(v: &Vec<u8>, sep: u8) -> (r: Vec<Vec<u8>>)
    ensures
        r.deep_view() == spec_split(v@, sep),
{
    let mut out: Vec<Vec<u8>> = Vec::new();
    let mut cur: Vec<u8> = Vec::new();
    let mut i: usize = 0;
    proof {
        lemma_split_nonempty(v@, sep);
        assert(v@.skip(0) =~= v@);
        assert(prepend_first(cur@, spec_split(v@, sep)) =~~= spec_split(v@, sep));
    }
    while i < v.len()
        invariant
            i <= v.len(),
            spec_split(v@, sep) == out.deep_view() + prepend_first(
                cur@,
                spec_split(v@.skip(i as int), sep),
            ),
        decreases v.len() - i,
    {
        let ghost rem = v@.skip(i as int);
        let ghost next = v@.skip(i + 1);
        proof {
            assert(rem[0] == v@[i as int]);
            assert(rem.skip(1) =~= next);
            lemma_split_nonempty(next, sep);
        }
        let b = v[i];
        if b == sep {
            proof {
                assert(spec_split(rem, sep) == seq![Seq::<u8>::empty()] + spec_split(next, sep));
            }
            let ghost old_out = out.deep_view();
            let ghost old_cur = cur@;
            out.push(cur);
            cur = Vec::new();
            proof {
                assert(out.deep_view() =~~= old_out + seq![old_cur]);
                assert(prepend_first(old_cur, seq![Seq::<u8>::empty()] + spec_split(next, sep))
                    =~~= seq![old_cur] + spec_split(next, sep));
                assert(prepend_first(cur@, spec_split(next, sep)) =~~= spec_split(next, sep));
                assert(spec_split(v@, sep) =~~= out.deep_view() + prepend_first(
                    cur@,
                    spec_split(next, sep),
                ));
            }
        } else {
            proof {
                let x = spec_split(next, sep);
                assert(spec_split(rem, sep) == seq![seq![rem[0]] + x[0]] + x.skip(1));
                assert(prepend_first(cur@, spec_split(rem, sep)) =~~= prepend_first(
                    cur@ + seq![v@[i as int]],
                    x,
                ));
            }
            cur.push(b);
            proof {
                assert(spec_split(v@, sep) =~~= out.deep_view() + prepend_first(
                    cur@,
                    spec_split(next, sep),
                ));
            }
        }
        i += 1;
    }
    proof {
        assert(v@.skip(v@.len() as int) =~= Seq::<u8>::empty());
    }
    let ghost old_out = out.deep_view();
    let ghost old_cur = cur@;
    out.push(cur);
    proof {
        assert(out.deep_view() =~~= old_out + seq![old_cur]);
        assert(prepend_first(old_cur, spec_split(Seq::<u8>::empty(), sep)) =~~= seq![old_cur]);
        assert(out.deep_view() =~~= spec_split(v@, sep));
    }
    out
}

} // verus!

verus! {

/// A copy of `v[a..b]`.
pub fn sub_vec(v: &Vec<u8>, a: usize, b: usize) -> (r: Vec<u8>)
    requires
        a <= b <= v.len(),
    ensures
        r@ == v@.subrange(a as int, b as int),
{
    let mut r: Vec<u8> = Vec::new();
    let mut j: usize = a;
    while j < b
        invariant
            a <= j <= b <= v.len(),
            r@ == v@.subrange(a as int, j as int),
        decreases b - j,
    {
        let x = v[j];
        r.push(x);
        proof {
            assert(r@ =~= v@.subrange(a as int, j + 1));
        }
        j += 1;
    }
    r
}

} // verus!
