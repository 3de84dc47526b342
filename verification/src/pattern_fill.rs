use vstd::prelude::*;

use crate::app::App;
use crate::plugin_api::inclusive_range_ok;

verus! {

/// The ways in which a token of a fill pattern fails to be a byte in hexadecimal, as std's
/// `u8::from_str_radix` reports them.
#[derive(Debug, Clone, Copy, PartialEq, Eq)]
pub enum ParseIntErrorKind {
    Empty,
    InvalidDigit,
    PosOverflow,
}

impl ParseIntErrorKind {
    /// The message under which std's `ParseIntError` shows this kind of failure.
    pub fn description(&self) -> (r: &'static str)
        ensures
            r@ == match self {
                ParseIntErrorKind::Empty => "cannot parse integer from empty string"@,
                ParseIntErrorKind::InvalidDigit => "invalid digit found in string"@,
                ParseIntErrorKind::PosOverflow => "number too large to fit in target type"@,
            },
    {
        match self {
            ParseIntErrorKind::Empty => "cannot parse integer from empty string",
            ParseIntErrorKind::InvalidDigit => "invalid digit found in string",
            ParseIntErrorKind::PosOverflow => "number too large to fit in target type",
        }
    }
}

/// The pattern text split at every space, as `str::split(' ')` splits it: `n` spaces
/// give `n + 1` pieces, empty ones included.
pub open spec fn split_spaces(s: Seq<char>) -> Seq<Seq<char>>
    decreases s.len(),
{
    if s.len() == 0 {
        seq![Seq::empty()]
    } else {
        let t = split_spaces(s.drop_last());
        if s.last() == ' ' {
            t.push(Seq::empty())
        } else {
            t.update(t.len() - 1, t.last().push(s.last()))
        }
    }
}

proof fn lemma_split_spaces_nonempty(s: Seq<char>)
    ensures
        split_spaces(s).len() >= 1,
    decreases s.len(),
{
    if s.len() > 0 {
        lemma_split_spaces_nonempty(s.drop_last());
    }
}

/// Pieces joined back together with a single space between each two.
pub open spec fn join_spaces(pieces: Seq<Seq<char>>) -> Seq<char>
    decreases pieces.len(),
{
    if pieces.len() <= 1 {
        if pieces.len() == 0 {
            Seq::empty()
        } else {
            pieces[0]
        }
    } else {
        join_spaces(pieces.drop_last()) + seq![' '] + pieces.last()
    }
}

/// Splitting at spaces cuts the text into pieces that hold no space and that, joined back
/// with single spaces, give the text again.
pub proof fn lemma_split_spaces_joins_back(s: Seq<char>)
    ensures
        split_spaces(s).len() >= 1,
        join_spaces(split_spaces(s)) == s,
        forall|i: int, j: int|
            0 <= i < split_spaces(s).len() && 0 <= j < split_spaces(s)[i].len()
                ==> split_spaces(s)[i][j] != ' ',
    decreases s.len(),
{
    lemma_split_spaces_nonempty(s);
    if s.len() == 0 {
        assert(join_spaces(split_spaces(s)) =~= s);
    } else {
        let p = s.drop_last();
        lemma_split_spaces_joins_back(p);
        let t = split_spaces(p);
        let c = s.last();
        assert(s =~= p.push(c));
        if c == ' ' {
            let u = t.push(Seq::<char>::empty());
            assert(u.drop_last() =~= t);
            assert(join_spaces(u) =~= join_spaces(t) + seq![' '] + Seq::<char>::empty());
            assert(join_spaces(u) =~= s);
            assert forall|i: int, j: int|
                0 <= i < u.len() && 0 <= j < u[i].len() implies u[i][j] != ' ' by {
                assert(i < t.len());
            }
        } else {
            let last = t.last().push(c);
            let u = t.update(t.len() - 1, last);
            if t.len() == 1 {
                assert(join_spaces(t) == t[0]);
                assert(join_spaces(u) == u[0]);
                assert(join_spaces(u) =~= s);
            } else {
                assert(u.drop_last() =~= t.drop_last());
                assert(join_spaces(t) == join_spaces(t.drop_last()) + seq![' '] + t.last());
                assert(join_spaces(u) =~= s);
            }
            assert forall|i: int, j: int|
                0 <= i < u.len() && 0 <= j < u[i].len() implies u[i][j] != ' ' by {
                if i == t.len() - 1 {
                    if j < t.last().len() {
                        assert(u[i][j] == t[i][j]);
                    }
                }
            }
        }
    }
}

/// A leading `+` is skipped: a token that does not already start with `+` reads the same
/// with one put before it.
pub proof fn lemma_plus_sign_is_skipped(t: Seq<char>)
    requires
        t.len() > 0,
        t[0] != '+',
    ensures
        hex_byte(seq!['+'] + t) == hex_byte(t),
{
    let u = seq!['+'] + t;
    assert(u.drop_first() =~= t);
    if t.len() == 1 && t[0] == '-' {
        assert(t.drop_first() =~= Seq::<char>::empty());
    }
}

/// Splits the pattern text at every space.
fn split_pattern(s: &str) -> (r: Vec<Vec<char>>)
    ensures
        r.deep_view() == split_spaces(s@),
{
    let mut tokens: Vec<Vec<char>> = Vec::new();
    tokens.push(Vec::new());
    assert(tokens.deep_view()[0] =~= Seq::<char>::empty());
    assert(tokens.deep_view() =~= split_spaces(s@.take(0)));
    for c in it: s.chars()
        invariant
            it.seq() == s@,
            tokens.deep_view() == split_spaces(s@.take(it.index() as int)),
    {
        proof { lemma_split_spaces_nonempty(s@.take(it.index() as int)); }
        assert(s@.take(it.index() + 1).drop_last() =~= s@.take(it.index() as int));
        let ghost before = tokens.deep_view();
        if c == ' ' {
            tokens.push(Vec::new());
            assert(tokens.deep_view()[tokens.len() - 1] =~= Seq::<char>::empty());
            assert(tokens.deep_view() =~= before.push(Seq::empty()));
        } else {
            let last = tokens.len() - 1;
            let mut t = tokens.remove(last);
            assert(t.deep_view() == before[last as int]);
            t.push(c);
            assert(t.deep_view() =~= before[last as int].push(c));
            tokens.push(t);
            assert(tokens.deep_view() =~= before.update(last as int, before[last as int].push(c)));
        }
        assert(tokens.deep_view() =~= split_spaces(s@.take(it.index() + 1)));
    }
    assert(s@.take(s@.len() as int) =~= s@);
    tokens
}

/// The value of a hexadecimal digit, in either case.
pub open spec fn hex_digit_value(c: char) -> Option<nat> {
    if '0' <= c <= '9' {
        Some((c as nat - '0' as nat) as nat)
    } else if 'a' <= c <= 'f' {
        Some((c as nat - 'a' as nat + 10) as nat)
    } else if 'A' <= c <= 'F' {
        Some((c as nat - 'A' as nat + 10) as nat)
    } else {
        None
    }
}

/// Reads `digits` left to right onto `acc`, stopping at the first digit that is not
/// hexadecimal or that takes the value past 255.
pub open spec fn scan_hex(digits: Seq<char>, acc: nat) -> Result<u8, ParseIntErrorKind>
    decreases digits.len(),
{
    if digits.len() == 0 {
        Ok(acc as u8)
    } else {
        match hex_digit_value(digits[0]) {
            None => Err(ParseIntErrorKind::InvalidDigit),
            Some(d) => if acc * 16 + d > 255 {
                Err(ParseIntErrorKind::PosOverflow)
            } else {
                scan_hex(digits.drop_first(), acc * 16 + d)
            },
        }
    }
}

/// A token read as `u8::from_str_radix(token, 16)` reads it: an optional `+`, then
/// hexadecimal digits whose value is at most 255.
pub open spec fn hex_byte(t: Seq<char>) -> Result<u8, ParseIntErrorKind> {
    if t.len() == 0 {
        Err(ParseIntErrorKind::Empty)
    } else if t.len() == 1 && (t[0] == '+' || t[0] == '-') {
        Err(ParseIntErrorKind::InvalidDigit)
    } else if t[0] == '+' {
        scan_hex(t.drop_first(), 0)
    } else {
        scan_hex(t, 0)
    }
}

fn hex_digit(c: char) -> (r: Option<u32>)
    ensures
        r matches Some(d) ==> hex_digit_value(c) == Some(d as nat) && d < 16,
        r is None ==> hex_digit_value(c) is None,
{
    if '0' <= c && c <= '9' {
        Some((c as u32) - ('0' as u32))
    } else if 'a' <= c && c <= 'f' {
        Some((c as u32) - ('a' as u32) + 10)
    } else if 'A' <= c && c <= 'F' {
        Some((c as u32) - ('A' as u32) + 10)
    } else {
        None
    }
}

/// Reads one token of the pattern as a byte in hexadecimal.
fn parse_hex_byte(t: &Vec<char>) -> (r: Result<u8, ParseIntErrorKind>)
    ensures
        r == hex_byte(t@),
{
    let n = t.len();
    if n == 0 {
        return Err(ParseIntErrorKind::Empty);
    }
    if n == 1 && (t[0] == '+' || t[0] == '-') {
        return Err(ParseIntErrorKind::InvalidDigit);
    }
    let start: usize = if t[0] == '+' { 1 } else { 0 };
    let ghost digits = if t@[0] == '+' { t@.drop_first() } else { t@ };
    assert(t@.skip(start as int) =~= digits);
    let mut acc: u32 = 0;
    let mut k: usize = start;
    while k < n
        invariant
            n == t@.len(),
            start <= k <= n,
            acc <= 255,
            hex_byte(t@) == scan_hex(t@.skip(k as int), acc as nat),
        decreases n - k,
    {
        assert(t@.skip(k as int).drop_first() =~= t@.skip(k + 1));
        assert(t@.skip(k as int)[0] == t@[k as int]);
        match hex_digit(t[k]) {
            None => {
                return Err(ParseIntErrorKind::InvalidDigit);
            },
            Some(d) => {
                if acc * 16 + d > 255 {
                    return Err(ParseIntErrorKind::PosOverflow);
                }
                acc = acc * 16 + d;
            },
        }
        k += 1;
    }
    assert(t@.skip(n as int).len() == 0);
    Ok(acc as u8)
}

/// The tokens read one by one, stopping at the first that fails.
pub open spec fn parse_tokens(ts: Seq<Seq<char>>) -> Result<Seq<u8>, ParseIntErrorKind>
    decreases ts.len(),
{
    if ts.len() == 0 {
        Ok(Seq::empty())
    } else {
        match parse_tokens(ts.drop_last()) {
            Err(e) => Err(e),
            Ok(bs) => match hex_byte(ts.last()) {
                Ok(b) => Ok(bs.push(b)),
                Err(e) => Err(e),
            },
        }
    }
}

/// A fill pattern: bytes in hexadecimal separated by single spaces. The first token that
/// is not such a byte decides the error.
pub open spec fn pattern_bytes(s: Seq<char>) -> Result<Seq<u8>, ParseIntErrorKind> {
    parse_tokens(split_spaces(s))
}

/// Once a prefix of the tokens fails, the whole fails the same way.
pub proof fn lemma_parse_tokens_error_stays(ts: Seq<Seq<char>>, k: int)
    requires
        0 <= k <= ts.len(),
        parse_tokens(ts.take(k)) is Err,
    ensures
        parse_tokens(ts) == parse_tokens(ts.take(k)),
    decreases ts.len() - k,
{
    if k < ts.len() {
        assert(ts.take(k + 1).drop_last() =~= ts.take(k));
        lemma_parse_tokens_error_stays(ts, k + 1);
    } else {
        assert(ts.take(k) =~= ts);
    }
}

/// Reads a fill pattern into the bytes it names.
pub fn parse_pattern(s: &str) -> (r: Result<Vec<u8>, ParseIntErrorKind>)
    ensures
        match r {
            Ok(bs) => pattern_bytes(s@) == Ok::<Seq<u8>, ParseIntErrorKind>(bs@),
            Err(e) => pattern_bytes(s@) == Err::<Seq<u8>, ParseIntErrorKind>(e),
        },
{
    let tokens = split_pattern(s);
    let ghost ts = tokens.deep_view();
    let mut out: Vec<u8> = Vec::new();
    let mut k: usize = 0;
    assert(ts.take(0) =~= Seq::<Seq<char>>::empty());
    while k < tokens.len()
        invariant
            ts == tokens.deep_view(),
            ts == split_spaces(s@),
            k <= ts.len(),
            parse_tokens(ts.take(k as int)) == Ok::<Seq<u8>, ParseIntErrorKind>(out@),
        decreases ts.len() - k,
    {
        assert(ts.take(k + 1).drop_last() =~= ts.take(k as int));
        assert(tokens[k as int]@ == ts[k as int]);
        match parse_hex_byte(&tokens[k]) {
            Ok(b) => {
                out.push(b);
            },
            Err(e) => {
                proof {
                    lemma_parse_tokens_error_stays(ts, k + 1);
                }
                return Err(e);
            },
        }
        k += 1;
    }
    assert(ts.take(ts.len() as int) =~= ts);
    Ok(out)
}

/// The lowercase hexadecimal digit for `d < 16`.
pub open spec fn hex_char(d: nat) -> char {
    if d < 10 {
        (d + 48) as char
    } else {
        (d + 87) as char
    }
}

/// A byte written as two lowercase hexadecimal digits.
pub open spec fn hex_text(b: u8) -> Seq<char> {
    seq![hex_char(b as nat / 16), hex_char(b as nat % 16)]
}

/// Bytes written as a fill pattern: each as two hexadecimal digits, separated by single
/// spaces.
pub open spec fn pattern_text(bs: Seq<u8>) -> Seq<char>
    decreases bs.len(),
{
    if bs.len() == 0 {
        Seq::empty()
    } else if bs.len() == 1 {
        hex_text(bs[0])
    } else {
        pattern_text(bs.drop_last()) + seq![' '] + hex_text(bs.last())
    }
}

proof fn lemma_hex_char_value(d: nat)
    requires
        d < 16,
    ensures
        hex_digit_value(hex_char(d)) == Some(d),
        hex_char(d) != ' ',
        hex_char(d) != '+',
        hex_char(d) != '-',
{
}

proof fn lemma_hex_byte_of_text(b: u8)
    ensures
        hex_byte(hex_text(b)) == Ok::<u8, ParseIntErrorKind>(b),
{
    let t = hex_text(b);
    let hi = b as nat / 16;
    let lo = b as nat % 16;
    lemma_hex_char_value(hi);
    lemma_hex_char_value(lo);
    assert(t.drop_first() =~= seq![hex_char(lo)]);
    assert(t.drop_first().drop_first() =~= Seq::<char>::empty());
    assert(hi * 16 + lo == b);
    assert(scan_hex(t.drop_first().drop_first(), hi * 16 + lo) == Ok::<u8, ParseIntErrorKind>(b));
    assert(scan_hex(t.drop_first(), hi) == Ok::<u8, ParseIntErrorKind>(b));
    assert(scan_hex(t, 0) == Ok::<u8, ParseIntErrorKind>(b));
}

/// Splitting text that ends in a piece without spaces extends the last piece.
proof fn lemma_split_spaces_append_word(s: Seq<char>, t: Seq<char>)
    requires
        forall|k: int| 0 <= k < t.len() ==> t[k] != ' ',
    ensures
        split_spaces(s + t) == split_spaces(s).update(
            split_spaces(s).len() - 1,
            split_spaces(s).last() + t,
        ),
    decreases t.len(),
{
    lemma_split_spaces_nonempty(s);
    if t.len() == 0 {
        assert(s + t =~= s);
        assert(split_spaces(s).last() + t =~= split_spaces(s).last());
        assert(split_spaces(s).update(split_spaces(s).len() - 1, split_spaces(s).last())
            =~= split_spaces(s));
    } else {
        let u = t.drop_last();
        lemma_split_spaces_append_word(s, u);
        assert((s + t).drop_last() =~= s + u);
        assert((s + t).last() == t.last());
        assert(t[t.len() - 1] != ' ');
        let ss = split_spaces(s);
        lemma_split_spaces_nonempty(s + u);
        assert((ss.last() + u).push(t.last()) =~= ss.last() + t);
        assert(split_spaces(s + u).last() == ss.last() + u);
        assert(split_spaces(s + t) =~= split_spaces(s).update(
            split_spaces(s).len() - 1,
            split_spaces(s).last() + t,
        ));
    }
}

proof fn lemma_split_pattern_text(bs: Seq<u8>)
    requires
        bs.len() > 0,
    ensures
        split_spaces(pattern_text(bs)) == bs.map_values(|b: u8| hex_text(b)),
    decreases bs.len(),
{
    let h = hex_text(bs.last());
    lemma_hex_char_value(bs.last() as nat / 16);
    lemma_hex_char_value(bs.last() as nat % 16);
    if bs.len() == 1 {
        lemma_split_spaces_append_word(Seq::empty(), h);
        assert(Seq::<char>::empty() + h =~= h);
        assert(Seq::<char>::empty() + h =~= pattern_text(bs));
        assert(split_spaces(Seq::<char>::empty()) =~= seq![Seq::<char>::empty()]);
        assert(split_spaces(pattern_text(bs)) =~= bs.map_values(|b: u8| hex_text(b)));
    } else {
        let p = pattern_text(bs.drop_last());
        lemma_split_pattern_text(bs.drop_last());
        let q = p + seq![' '];
        assert(q.drop_last() =~= p);
        assert(split_spaces(q) == split_spaces(p).push(Seq::empty()));
        lemma_split_spaces_append_word(q, h);
        assert(Seq::<char>::empty() + h =~= h);
        assert(bs.map_values(|b: u8| hex_text(b)) =~= bs.drop_last().map_values(
            |b: u8| hex_text(b),
        ).push(h));
        assert(split_spaces(q + h) =~= bs.map_values(|b: u8| hex_text(b)));
    }
}

proof fn lemma_parse_hex_texts(bs: Seq<u8>)
    ensures
        parse_tokens(bs.map_values(|b: u8| hex_text(b))) == Ok::<Seq<u8>, ParseIntErrorKind>(bs),
    decreases bs.len(),
{
    let ts = bs.map_values(|b: u8| hex_text(b));
    if bs.len() == 0 {
        assert(ts.len() == 0);
        assert(bs =~= Seq::<u8>::empty());
    } else {
        lemma_parse_hex_texts(bs.drop_last());
        assert(ts.drop_last() =~= bs.drop_last().map_values(|b: u8| hex_text(b)));
        lemma_hex_byte_of_text(bs.last());
        assert(bs.drop_last().push(bs.last()) =~= bs);
    }
}

/// Bytes written as a pattern (two hexadecimal digits each, single spaces between) read
/// back as the same bytes.
pub proof fn lemma_pattern_text_reads_back(bs: Seq<u8>)
    requires
        bs.len() > 0,
    ensures
        pattern_bytes(pattern_text(bs)) == Ok::<Seq<u8>, ParseIntErrorKind>(bs),
{
    lemma_split_pattern_text(bs);
    lemma_parse_hex_texts(bs);
}

/// A one-character token reads as the digit's value in either case: `0`-`9` give 0-9,
/// `a`-`f` and `A`-`F` give 10-15, and every other character is an invalid digit.
pub proof fn lemma_single_digit_token(c: char)
    ensures
        '0' <= c <= '9' ==> hex_byte(seq![c]) == Ok::<u8, ParseIntErrorKind>((c as int - 48) as u8),
        'a' <= c <= 'f' ==> hex_byte(seq![c]) == Ok::<u8, ParseIntErrorKind>((c as int - 87) as u8),
        'A' <= c <= 'F' ==> hex_byte(seq![c]) == Ok::<u8, ParseIntErrorKind>((c as int - 55) as u8),
        !('0' <= c <= '9' || 'a' <= c <= 'f' || 'A' <= c <= 'F') ==> hex_byte(seq![c])
            == Err::<u8, ParseIntErrorKind>(ParseIntErrorKind::InvalidDigit),
{
    let t = seq![c];
    assert(t.drop_first() =~= Seq::<char>::empty());
    assert(t[0] == c);
    if let Some(d) = hex_digit_value(c) {
        assert(scan_hex(Seq::<char>::empty(), d) == Ok::<u8, ParseIntErrorKind>(d as u8));
        assert(scan_hex(t, 0) == scan_hex(t.drop_first(), d));
    }
}

/// A two-character token of digits reads as the first digit's value times 16 plus the second's.
pub proof fn lemma_two_digit_token(hi: char, lo: char, a: u8, b: u8)
    requires
        hex_byte(seq![hi]) == Ok::<u8, ParseIntErrorKind>(a),
        hex_byte(seq![lo]) == Ok::<u8, ParseIntErrorKind>(b),
    ensures
        hex_byte(seq![hi, lo]) == Ok::<u8, ParseIntErrorKind>((a * 16 + b) as u8),
        a * 16 + b <= 255,
{
    let t = seq![hi, lo];
    assert(seq![hi].drop_first() =~= Seq::<char>::empty());
    assert(seq![lo].drop_first() =~= Seq::<char>::empty());
    assert(t.drop_first() =~= seq![lo]);
    assert(t.drop_first().drop_first() =~= Seq::<char>::empty());
    lemma_single_digit_token(hi);
    lemma_single_digit_token(lo);
    let da = hex_digit_value(hi)->0;
    let db = hex_digit_value(lo)->0;
    assert(scan_hex(seq![hi], 0) == scan_hex(Seq::<char>::empty(), da));
    assert(scan_hex(seq![lo], 0) == scan_hex(Seq::<char>::empty(), db));
    assert(da == a && db == b);
    assert(scan_hex(Seq::<char>::empty(), da * 16 + db) == Ok::<u8, ParseIntErrorKind>((a * 16 + b) as u8));
    assert(scan_hex(t.drop_first(), da) == scan_hex(t.drop_first().drop_first(), da * 16 + db));
}

/// `data` with the bytes `start..=end` overwritten by `pattern`, repeated from its first
/// byte on as often as it takes; an empty pattern writes nothing.
pub open spec fn pattern_filled(data: Seq<u8>, start: int, end: int, pattern: Seq<u8>) -> Seq<u8> {
    Seq::new(
        data.len(),
        |k: int|
            if start <= k <= end && pattern.len() > 0 {
                pattern[(k - start) % (pattern.len() as int)]
            } else {
                data[k]
            },
    )
}

/// Filling writes every byte of the range, whatever the pattern's length: with a non-empty
/// pattern, byte `k` of `start..=end` becomes byte `(k - start) % len` of the pattern, the
/// bytes outside the range stay, and a pattern exactly as long as the range is copied into it.
pub proof fn lemma_fill_writes_whole_range(data: Seq<u8>, start: usize, end: usize, pattern: Seq<u8>)
    requires
        inclusive_range_ok(start, end, data.len()),
        pattern.len() > 0,
    ensures
        pattern_filled(data, start as int, end as int, pattern).len() == data.len(),
        forall|k: int|
            start <= k <= end ==> #[trigger] pattern_filled(data, start as int, end as int, pattern)[k]
                == pattern[(k - start) % (pattern.len() as int)],
        forall|k: int|
            0 <= k < data.len() && !(start <= k <= end) ==> #[trigger] pattern_filled(
                data,
                start as int,
                end as int,
                pattern,
            )[k] == data[k],
        pattern.len() == end + 1 - start ==> pattern_filled(
            data,
            start as int,
            end as int,
            pattern,
        ).subrange(start as int, end + 1) == pattern,
{
    let f = pattern_filled(data, start as int, end as int, pattern);
    if pattern.len() == end + 1 - start {
        assert forall|j: int| 0 <= j < pattern.len() implies f.subrange(start as int, end + 1)[j]
            == pattern[j] by {
            vstd::arithmetic::div_mod::lemma_small_mod(j as nat, pattern.len());
        }
        assert(f.subrange(start as int, end + 1) =~= pattern);
    }
}

/// Overwrites the bytes `start..=end` of `data` with `pattern`, repeated.
pub fn fill_pattern(data: &mut [u8], start: usize, end: usize, pattern: &[u8])
    requires
        inclusive_range_ok(start, end, old(data)@.len()),
    ensures
        final(data)@ == pattern_filled(old(data)@, start as int, end as int, pattern@),
{
    let plen = pattern.len();
    if plen == 0 {
        assert(data@ =~= pattern_filled(old(data)@, start as int, end as int, pattern@));
        return;
    }
    let mut k: usize = start;
    while k <= end
        invariant
            plen == pattern@.len(),
            plen > 0,
            end < data@.len(),
            data@.len() == old(data)@.len(),
            start <= k <= end + 1,
            forall|j: int|
                0 <= j < data@.len() ==> #[trigger] data@[j] == if start <= j < k {
                    pattern@[(j - start) % (plen as int)]
                } else {
                    old(data)@[j]
                },
        decreases end + 1 - k,
    {
        let p = (k - start) % plen;
        data[k] = pattern[p];
        k += 1;
    }
    assert(data@ =~= pattern_filled(old(data)@, start as int, end as int, pattern@));
}

/// What the pattern fill dialog did in one frame.
#[derive(Debug)]
pub enum PatternFillOutcome {
    /// There is no selection to fill; the dialog says so.
    NoSelection,
    /// The pattern is being edited.
    Editing,
    /// The selection has been filled with the pattern.
    Filled,
    /// The pattern could not be read; the error is shown.
    Failed(ParseIntErrorKind),
}

/// The dialog's answer for one frame.
#[derive(Debug)]
pub struct PatternFillStep {
    pub outcome: PatternFillOutcome,
    /// Whether the pattern's text field takes the keyboard focus.
    pub request_focus: bool,
    /// Whether the dialog stays open.
    pub keep_open: bool,
    /// The bytes that the frame changed, as an inclusive range, for the editor to mark.
    pub dirty_region: Option<(usize, usize)>,
}

/// Whether the pattern's text field takes the focus in a frame, and whether the dialog still
/// counts as just opened after it: a frame with a selection takes the focus if the dialog was
/// just opened, and ends that state; a frame without one leaves it as it was.
pub open spec fn focus_step(just_opened: bool, has_selection: bool) -> (bool, bool) {
    if has_selection {
        (just_opened, false)
    } else {
        (false, just_opened)
    }
}

/// After the dialog is opened, its text field takes the focus in a frame with a selection
/// exactly when no earlier frame had one: in the first such frame, and in no later one until
/// the dialog is opened again.
pub proof fn lemma_focus_once_per_opening(frames: Seq<bool>, k: int)
    requires
        0 <= k < frames.len(),
        frames[k],
    ensures
        focus_after(true, frames.take(k + 1)).0 == !frames.take(k).contains(true),
{
    lemma_focus_after(true, frames.take(k));
    assert(frames.take(k + 1).drop_last() =~= frames.take(k));
}

/// The focus taken in the last of `frames` (each saying whether it had a selection), and
/// whether the dialog still counts as just opened after them.
pub open spec fn focus_after(just_opened: bool, frames: Seq<bool>) -> (bool, bool)
    decreases frames.len(),
{
    if frames.len() == 0 {
        (false, just_opened)
    } else {
        focus_step(focus_after(just_opened, frames.drop_last()).1, frames.last())
    }
}

proof fn lemma_focus_after(just_opened: bool, frames: Seq<bool>)
    ensures
        focus_after(just_opened, frames).1 == (just_opened && !frames.contains(true)),
    decreases frames.len(),
{
    if frames.len() > 0 {
        lemma_focus_after(just_opened, frames.drop_last());
        assert(frames.contains(true) <==> (frames.drop_last().contains(true) || frames.last()))
            by {
            if frames.last() {
                assert(frames[frames.len() - 1] == true);
            }
            if frames.drop_last().contains(true) {
                let j = choose|j: int| 0 <= j < frames.drop_last().len() && frames.drop_last()[j] == true;
                assert(frames[j] == true);
            }
            if frames.contains(true) && !frames.last() {
                let j = choose|j: int| 0 <= j < frames.len() && frames[j] == true;
                assert(frames.drop_last()[j] == true);
            }
        }
    }
}

/// A dialog that fills the selection with a pattern of bytes typed in hexadecimal.
#[derive(Debug)]
pub struct PatternFillDialog {
    pub pattern_string: String,
    pub just_opened: bool,
}

impl Default for PatternFillDialog {
    fn default() -> (r: PatternFillDialog)
        ensures
            r.pattern_string@.len() == 0,
            !r.just_opened,
    {
        PatternFillDialog { pattern_string: String::new(), just_opened: false }
    }
}

impl PatternFillDialog {
    pub fn title(&self) -> (r: &'static str)
        ensures
            r@ == "Selection pattern fill"@,
    {
        "Selection pattern fill"
    }

    pub fn on_open(&mut self)
        ensures
            final(self).just_opened,
            final(self).pattern_string == old(self).pattern_string,
    {
        self.just_opened = true;
    }

    /// One frame of the dialog over the editor `app`, given whether Enter was pressed. On
    /// Enter a pattern that reads fills the selection, marks the document changed and closes
    /// the dialog; one that does not read leaves the error to show.
    pub fn ui(&mut self, app: &mut App, enter_pressed: bool) -> (r: PatternFillStep)
        requires
            match old(app).selection {
                Some((begin, end)) => enter_pressed && pattern_bytes(old(self).pattern_string@) is Ok
                    ==> inclusive_range_ok(begin, end, old(app).data@.len()),
                None => true,
            },
        ensures
            final(self).pattern_string == old(self).pattern_string,
            *final(app) == (App { data: final(app).data, dirty: final(app).dirty, ..*old(app) }),
            r.keep_open == !(r.outcome is Filled),
            (r.request_focus, final(self).just_opened) == focus_step(
                old(self).just_opened,
                old(app).selection is Some,
            ),
            !(r.outcome is Filled) ==> {
                &&& final(app).data@ == old(app).data@
                &&& final(app).dirty == old(app).dirty
                &&& r.dirty_region is None
            },
            match old(app).selection {
                None => r.outcome is NoSelection,
                Some((begin, end)) => if !enter_pressed {
                    r.outcome is Editing
                } else {
                    match pattern_bytes(old(self).pattern_string@) {
                        Ok(bs) => {
                            &&& r.outcome is Filled
                            &&& final(app).data@ == pattern_filled(
                                old(app).data@,
                                begin as int,
                                end as int,
                                bs,
                            )
                            &&& final(app).dirty
                            &&& r.dirty_region == Some((begin, end))
                        },
                        Err(e) => r.outcome == PatternFillOutcome::Failed(e),
                    }
                },
            },
    {
        let (begin, end) = match app.selection {
            None => {
                return PatternFillStep {
                    outcome: PatternFillOutcome::NoSelection,
                    request_focus: false,
                    keep_open: true,
                    dirty_region: None,
                };
            },
            Some(sel) => sel,
        };
        let request_focus = self.just_opened;
        self.just_opened = false;
        if !enter_pressed {
            return PatternFillStep {
                outcome: PatternFillOutcome::Editing,
                request_focus,
                keep_open: true,
                dirty_region: None,
            };
        }
        match parse_pattern(self.pattern_string.as_str()) {
            Ok(values) => {
                fill_pattern(app.data.as_mut_slice(), begin, end, values.as_slice());
                app.dirty = true;
                PatternFillStep {
                    outcome: PatternFillOutcome::Filled,
                    request_focus,
                    keep_open: false,
                    dirty_region: Some((begin, end)),
                }
            },
            Err(e) => PatternFillStep {
                outcome: PatternFillOutcome::Failed(e),
                request_focus,
                keep_open: true,
                dirty_region: None,
            },
        }
    }
}

} // verus!
