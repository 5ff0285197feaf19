//! Verified text handling of the request boundary: wall-clock times
//! written `HH:MM`, unsigned decimal numbers as the standard library
//! parses them, and comma-separated name lists.

use vstd::prelude::*;
use crate::types::{InvalidSpec, TimeRange};
use vstd::string::StringExecFns;

verus! {

pub open spec fn is_ascii_digit(c: char) -> bool {
    '0' <= c && c <= '9'
}

pub open spec fn digit_val(c: char) -> int {
    c as int - 48
}

pub open spec fn all_digits(s: Seq<char>) -> bool {
    forall|i: int| 0 <= i < s.len() ==> is_ascii_digit(#[trigger] s[i])
}

/// The number a digit string denotes.
pub open spec fn digits_val(s: Seq<char>) -> int
    decreases s.len(),
{
    if s.len() == 0 {
        0
    } else {
        digits_val(s.drop_last()) * 10 + digit_val(s.last())
    }
}

/// What `u8::from_str` accepts: an optional leading plus sign, then
/// at least one digit, denoting a value of at most 255.
pub open spec fn parse_u8_spec(s: Seq<char>) -> Option<u8> {
    let body = if s.len() > 0 && s[0] == '+' {
        s.drop_first()
    } else {
        s
    };
    if body.len() > 0 && all_digits(body) && digits_val(body) <= 255 {
        Some(digits_val(body) as u8)
    } else {
        None
    }
}

/// Parse `s[from..to]` as the standard library parses a `u8`.
pub fn parse_u8_range(s: &str, from: usize, to: usize) -> (r: Option<u8>)
    requires
        from <= to <= s@.len(),
    ensures
        r == parse_u8_spec(s@.subrange(from as int, to as int)),
{
    let ghost whole = s@.subrange(from as int, to as int);
    let mut start = from;
    if from < to && s.get_char(from) == '+' {
        start = from + 1;
    }
    let ghost body = s@.subrange(start as int, to as int);
    proof {
        if from < to && s@[from as int] == '+' {
            assert(whole.drop_first() =~= body);
        } else {
            assert(whole =~= body);
        }
    }
    if start == to {
        return None;
    }
    let mut acc: u32 = 0;
    let mut over = false;
    let mut i = start;
    proof {
        assert(s@.subrange(start as int, start as int) =~= Seq::<char>::empty());
    }
    while i < to
        invariant
            from <= start <= i <= to <= s@.len(),
            whole == s@.subrange(from as int, to as int),
            body == s@.subrange(start as int, to as int),
            (if whole.len() > 0 && whole[0] == '+' {
                whole.drop_first()
            } else {
                whole
            }) == body,
            all_digits(s@.subrange(start as int, i as int)),
            !over ==> acc <= 255 && acc == digits_val(s@.subrange(start as int, i as int)),
            over ==> digits_val(s@.subrange(start as int, i as int)) > 255,
        decreases to - i,
    {
        let c = s.get_char(i);
        proof {
            assert(s@.subrange(start as int, i + 1int).drop_last() =~= s@.subrange(
                start as int,
                i as int,
            ));
            assert(s@.subrange(start as int, i + 1int).last() == s@[i as int]);
        }
        if c < '0' || c > '9' {
            proof {
                assert(body[i - start] == s@[i as int]);
                assert(!is_ascii_digit(body[i - start]));
            }
            return None;
        }
        let d: u32 = (c as u32) - 48;
        if !over {
            acc = acc * 10 + d;
            if acc > 255 {
                over = true;
            }
        }
        i += 1;
    }
    proof {
        assert(s@.subrange(start as int, to as int) =~= body);
    }
    if over {
        None
    } else {
        Some(acc as u8)
    }
}

/// How often a character occurs.
pub open spec fn count_char(s: Seq<char>, c: char) -> int
    decreases s.len(),
{
    if s.len() == 0 {
        0
    } else {
        count_char(s.drop_last(), c) + if s.last() == c {
            1int
        } else {
            0int
        }
    }
}

/// The first index of a character, if it occurs.
pub open spec fn find_char(s: Seq<char>, c: char) -> int
    decreases s.len(),
{
    if s.len() == 0 {
        0
    } else if count_char(s.drop_last(), c) > 0 {
        find_char(s.drop_last(), c)
    } else if s.last() == c {
        s.len() - 1
    } else {
        s.len() as int
    }
}

/// What a `HH:MM` text denotes: exactly one colon, both sides parsing
/// as numbers, the hour at most 23 and the minute at most 59.
pub open spec fn parse_time_spec(s: Seq<char>) -> Option<(u8, u8)> {
    if count_char(s, ':') != 1 {
        None
    } else {
        let i = find_char(s, ':');
        match (parse_u8_spec(s.subrange(0, i)), parse_u8_spec(s.subrange(i + 1, s.len() as int))) {
            (Some(h), Some(m)) => if h <= 23 && m <= 59 {
                Some((h, m))
            } else {
                None
            },
            _ => None,
        }
    }
}

/// A string without the character counts zero of it.
proof fn lemma_count_zero(s: Seq<char>, c: char)
    requires
        forall|j: int| 0 <= j < s.len() ==> s[j] != c,
    ensures
        count_char(s, c) == 0,
    decreases s.len(),
{
    if s.len() > 0 {
        assert(forall|j: int| 0 <= j < s.len() - 1 ==> s.drop_last()[j] == s[j]);
        lemma_count_zero(s.drop_last(), c);
    }
}

/// Occurrence counts are never negative.
proof fn lemma_count_nonneg(s: Seq<char>, c: char)
    ensures
        count_char(s, c) >= 0,
    decreases s.len(),
{
    if s.len() > 0 {
        lemma_count_nonneg(s.drop_last(), c);
    }
}

/// A string with the character counts at least one of it.
proof fn lemma_count_pos(s: Seq<char>, c: char, i: int)
    requires
        0 <= i < s.len(),
        s[i] == c,
    ensures
        count_char(s, c) > 0,
    decreases s.len(),
{
    if i < s.len() - 1 {
        assert(s.drop_last()[i] == s[i]);
        lemma_count_pos(s.drop_last(), c, i);
    } else {
        lemma_count_nonneg(s.drop_last(), c);
    }
}

/// The first occurrence of a character is where `find_char` points.
proof fn lemma_find_char_first(s: Seq<char>, c: char, ci: int)
    requires
        0 <= ci < s.len(),
        s[ci] == c,
        forall|j: int| 0 <= j < ci ==> s[j] != c,
    ensures
        find_char(s, c) == ci,
        count_char(s, c) > 0,
    decreases s.len(),
{
    lemma_count_pos(s, c, ci);
    if ci == s.len() - 1 {
        assert(forall|j: int| 0 <= j < s.len() - 1 ==> s.drop_last()[j] == s[j]);
        lemma_count_zero(s.drop_last(), c);
    } else {
        assert(s.drop_last()[ci] == s[ci]);
        assert(forall|j: int| 0 <= j < ci ==> s.drop_last()[j] == s[j]);
        lemma_find_char_first(s.drop_last(), c, ci);
    }
}

/// Parse a wall-clock time written `HH:MM`: exactly one colon, both
/// sides plain numbers, the hour at most 23 and the minute at most
/// 59; anything else denotes no time.
pub fn parse_time_string(time_str: &str) -> (r: Option<(u8, u8)>)
    ensures
        r == parse_time_spec(time_str@),
{
    let n = time_str.unicode_len();
    let mut cnt: usize = 0;
    let mut ci: usize = 0;
    let mut i: usize = 0;
    proof {
        assert(time_str@.subrange(0, 0int) =~= Seq::<char>::empty());
    }
    while i < n
        invariant
            0 <= i <= n,
            n == time_str@.len(),
            cnt <= i,
            cnt as int == count_char(time_str@.subrange(0, i as int), ':'),
            cnt > 0 ==> 0 <= ci < i && time_str@[ci as int] == ':' && (forall|j: int|
                0 <= j < ci ==> time_str@[j] != ':'),
            cnt == 0 ==> forall|j: int| 0 <= j < i ==> time_str@[j] != ':',
        decreases n - i,
    {
        proof {
            assert(time_str@.subrange(0, i + 1int).drop_last() =~= time_str@.subrange(
                0,
                i as int,
            ));
            assert(time_str@.subrange(0, i + 1int).last() == time_str@[i as int]);
        }
        if time_str.get_char(i) == ':' {
            if cnt == 0 {
                ci = i;
            }
            cnt = cnt + 1;
        }
        i += 1;
    }
    proof {
        assert(time_str@.subrange(0, n as int) =~= time_str@);
    }
    if cnt != 1 {
        return None;
    }
    proof {
        lemma_find_char_first(time_str@, ':', ci as int);
    }
    let h = parse_u8_range(time_str, 0, ci);
    let m = parse_u8_range(time_str, ci + 1, n);
    proof {
        assert(time_str@.subrange(0int, ci as int) == time_str@.subrange(0, ci as int));
    }
    match (h, m) {
        (Some(hh), Some(mm)) => {
            if hh <= 23 && mm <= 59 {
                Some((hh, mm))
            } else {
                None
            }
        }
        _ => None,
    }
}

/// The window a pair of `HH:MM` texts describes, if both parse.
pub open spec fn pair_window(p: (String, String)) -> Option<TimeRange> {
    match (parse_time_spec(p.0@), parse_time_spec(p.1@)) {
        (Some(s), Some(e)) => Some(
            TimeRange {
                start_hour: s.0,
                start_minute: s.1,
                end_hour: e.0,
                end_minute: e.1,
            },
        ),
        _ => None,
    }
}

/// The index of the first pair that does not describe a window.
pub open spec fn first_bad_pair(pairs: Seq<(String, String)>) -> Option<int>
    decreases pairs.len(),
{
    if pairs.len() == 0 {
        None
    } else if pair_window(pairs[0]) is None {
        Some(0int)
    } else {
        match first_bad_pair(pairs.drop_first()) {
            None => None,
            Some(i) => Some(i + 1),
        }
    }
}

/// Build the daily windows of a query from start/end text pairs; the
/// first pair that is not a valid `HH:MM` window is refused with its
/// index.
pub fn parse_time_ranges(pairs: &Vec<(String, String)>) -> (r: Result<Vec<TimeRange>, InvalidSpec>)
    ensures
        match first_bad_pair(pairs@) {
            Some(i) => r == Result::<Vec<TimeRange>, InvalidSpec>::Err(
                InvalidSpec::BadTimeText { index: i as usize },
            ),
            None => {
                &&& r is Ok
                &&& r.unwrap()@.len() == pairs@.len()
                &&& forall|k: int|
                    0 <= k < pairs@.len() ==> Some(#[trigger] r.unwrap()@[k]) == pair_window(
                        pairs@[k],
                    )
            },
        },
{
    let mut out: Vec<TimeRange> = Vec::new();
    let mut i: usize = 0;
    proof {
        if first_bad_pair(pairs@) is Some {
            lemma_first_bad_pair_in_range(pairs@);
        }
    }
    while i < pairs.len()
        invariant
            0 <= i <= pairs@.len(),
            out@.len() == i,
            forall|k: int| 0 <= k < i ==> Some(#[trigger] out@[k]) == pair_window(pairs@[k]),
            forall|k: int| 0 <= k < i ==> pair_window(#[trigger] pairs@[k]) is Some,
            first_bad_pair(pairs@) is Some ==> first_bad_pair(pairs@).unwrap() >= i,
        decreases pairs@.len() - i,
    {
        proof {
            lemma_first_bad_pair_at(pairs@, i as int);
        }
        let start = parse_time_string(pairs[i].0.as_str());
        let end = parse_time_string(pairs[i].1.as_str());
        match (start, end) {
            (Some(s), Some(e)) => {
                out.push(
                    TimeRange {
                        start_hour: s.0,
                        start_minute: s.1,
                        end_hour: e.0,
                        end_minute: e.1,
                    },
                );
            }
            _ => {
                return Err(InvalidSpec::BadTimeText { index: i });
            }
        }
        i += 1;
    }
    proof {
        if first_bad_pair(pairs@) is Some {
            lemma_first_bad_pair_in_range(pairs@);
        }
    }
    Ok(out)
}

/// If the first `i` pairs are valid, the first bad one (if any) lies
/// at `i` or beyond; if pair `i` is bad too, it is exactly the first.
proof fn lemma_first_bad_pair_at(pairs: Seq<(String, String)>, i: int)
    requires
        0 <= i < pairs.len(),
        forall|j: int| 0 <= j < i ==> pair_window(#[trigger] pairs[j]) is Some,
    ensures
        pair_window(pairs[i]) is None ==> first_bad_pair(pairs) == Some(i),
        pair_window(pairs[i]) is Some ==> (first_bad_pair(pairs) is Some ==> first_bad_pair(
            pairs,
        ).unwrap() >= i + 1),
    decreases i,
{
    if i == 0 {
        if pair_window(pairs[0]) is Some {
            if first_bad_pair(pairs) is Some {
                lemma_first_bad_pair_in_range(pairs.drop_first());
            }
        }
    } else {
        let rest = pairs.drop_first();
        assert(forall|j: int| 0 <= j < i - 1 ==> pair_window(#[trigger] rest[j]) is Some);
        assert(rest[i - 1] == pairs[i]);
        lemma_first_bad_pair_at(rest, i - 1);
        assert(pair_window(pairs[0]) is Some);
    }
}

/// A reported bad-pair index is in range.
proof fn lemma_first_bad_pair_in_range(pairs: Seq<(String, String)>)
    requires
        first_bad_pair(pairs) is Some,
    ensures
        0 <= first_bad_pair(pairs).unwrap() < pairs.len(),
    decreases pairs.len(),
{
    if pairs.len() > 0 && pair_window(pairs[0]) is Some {
        if first_bad_pair(pairs.drop_first()) is Some {
            lemma_first_bad_pair_in_range(pairs.drop_first());
        }
    }
}


/// The characters the standard library's `trim` removes: the Unicode
/// white-space set.
pub open spec fn is_ws(c: char) -> bool {
    ||| c == ' '
    ||| c == '\t'
    ||| c == '\n'
    ||| c == '\u{0B}'
    ||| c == '\u{0C}'
    ||| c == '\r'
    ||| c == '\u{85}'
    ||| c == '\u{A0}'
    ||| c == '\u{1680}'
    ||| ('\u{2000}' <= c && c <= '\u{200A}')
    ||| c == '\u{2028}'
    ||| c == '\u{2029}'
    ||| c == '\u{202F}'
    ||| c == '\u{205F}'
    ||| c == '\u{3000}'
}

pub fn is_ws_char(c: char) -> (r: bool)
    ensures
        r == is_ws(c),
{
    c == ' ' || c == '\t' || c == '\n' || c == '\u{0B}' || c == '\u{0C}' || c == '\r' || c
        == '\u{85}' || c == '\u{A0}' || c == '\u{1680}' || ('\u{2000}' <= c && c <= '\u{200A}')
        || c == '\u{2028}' || c == '\u{2029}' || c == '\u{202F}' || c == '\u{205F}' || c
        == '\u{3000}'
}

pub open spec fn trim_front(s: Seq<char>) -> Seq<char>
    decreases s.len(),
{
    if s.len() > 0 && is_ws(s[0]) {
        trim_front(s.drop_first())
    } else {
        s
    }
}

pub open spec fn trim_back(s: Seq<char>) -> Seq<char>
    decreases s.len(),
{
    if s.len() > 0 && is_ws(s.last()) {
        trim_back(s.drop_last())
    } else {
        s
    }
}

/// What `str::trim` leaves: the text without its leading and
/// trailing white space.
pub open spec fn trim_spec(s: Seq<char>) -> Seq<char> {
    trim_back(trim_front(s))
}

proof fn lemma_trim_front_skip(t: Seq<char>, k: int)
    requires
        0 <= k <= t.len(),
        forall|j: int| 0 <= j < k ==> is_ws(#[trigger] t[j]),
        k == t.len() || !is_ws(t[k]),
    ensures
        trim_front(t) == t.skip(k),
    decreases k,
{
    if k == 0 {
        assert(t.skip(0int) =~= t);
    } else {
        assert(is_ws(t[0]));
        let rest = t.drop_first();
        assert(forall|j: int| 0 <= j < rest.len() ==> #[trigger] rest[j] == t[j + 1]);
        lemma_trim_front_skip(rest, k - 1);
        assert(rest.skip(k - 1) =~= t.skip(k));
    }
}

proof fn lemma_trim_back_take(t: Seq<char>, k: int)
    requires
        0 <= k <= t.len(),
        forall|j: int| k <= j < t.len() ==> is_ws(#[trigger] t[j]),
        k == 0 || !is_ws(t[k - 1]),
    ensures
        trim_back(t) == t.take(k),
    decreases t.len(),
{
    if k == t.len() {
        if t.len() > 0 && is_ws(t.last()) {
            assert(false);
        }
        assert(t.take(k) =~= t);
    } else {
        assert(is_ws(t.last()));
        let rest = t.drop_last();
        assert(forall|j: int| 0 <= j < rest.len() ==> #[trigger] rest[j] == t[j]);
        lemma_trim_back_take(rest, k);
        assert(rest.take(k) =~= t.take(k));
    }
}

/// Trim the white space off `s[from..to]`.
pub fn trim_substring(s: &str, from: usize, to: usize) -> (r: String)
    requires
        from <= to <= s@.len(),
    ensures
        r@ == trim_spec(s@.subrange(from as int, to as int)),
{
    let ghost t = s@.subrange(from as int, to as int);
    let mut lo = from;
    while lo < to && is_ws_char(s.get_char(lo))
        invariant
            from <= lo <= to <= s@.len(),
            t == s@.subrange(from as int, to as int),
            forall|j: int| from <= j < lo ==> is_ws(#[trigger] s@[j]),
        decreases to - lo,
    {
        lo += 1;
    }
    let mut hi = to;
    while hi > lo && is_ws_char(s.get_char(hi - 1))
        invariant
            from <= lo <= hi <= to <= s@.len(),
            t == s@.subrange(from as int, to as int),
            forall|j: int| from <= j < lo ==> is_ws(#[trigger] s@[j]),
            lo == to || !is_ws(s@[lo as int]),
            forall|j: int| hi <= j < to ==> is_ws(#[trigger] s@[j]),
        decreases hi - lo,
    {
        hi -= 1;
    }
    proof {
        assert(forall|j: int| 0 <= j < t.len() ==> #[trigger] t[j] == s@[from + j]);
        lemma_trim_front_skip(t, lo - from);
        let u = t.skip(lo - from);
        assert(forall|j: int| 0 <= j < u.len() ==> #[trigger] u[j] == s@[lo + j]);
        lemma_trim_back_take(u, hi - lo);
        assert(u.take(hi - lo) =~= s@.subrange(lo as int, hi as int));
    }
    let piece = s.substring_char(lo, hi);
    String::from_str(piece)
}

/// What splitting on commas yields: the (possibly empty) segments
/// between the commas, in order; a text without commas is one
/// segment.
pub open spec fn split_commas(s: Seq<char>) -> Seq<Seq<char>>
    decreases s.len(),
{
    if s.len() == 0 {
        seq![Seq::<char>::empty()]
    } else if s[0] == ',' {
        seq![Seq::<char>::empty()] + split_commas(s.drop_first())
    } else {
        let rest = split_commas(s.drop_first());
        seq![seq![s[0]] + rest[0]] + rest.drop_first()
    }
}

proof fn lemma_split_len(s: Seq<char>)
    ensures
        split_commas(s).len() >= 1,
    decreases s.len(),
{
    if s.len() > 0 {
        lemma_split_len(s.drop_first());
    }
}

/// Walking a comma-free stretch prepends it to the first segment of
/// what follows.
proof fn lemma_split_stretch(s: Seq<char>, a: int, b: int)
    requires
        0 <= a <= b <= s.len(),
        forall|j: int| a <= j < b ==> s[j] != ',',
    ensures
        split_commas(s.skip(a)).len() >= 1,
        split_commas(s.skip(a)) == seq![
            s.subrange(a, b) + split_commas(s.skip(b))[0]
        ] + split_commas(s.skip(b)).drop_first(),
    decreases b - a,
{
    lemma_split_len(s.skip(a));
    lemma_split_len(s.skip(b));
    if a == b {
        assert(s.subrange(a, b) =~= Seq::<char>::empty());
        assert(s.subrange(a, b) + split_commas(s.skip(b))[0] =~= split_commas(s.skip(b))[0]);
        assert(seq![split_commas(s.skip(a))[0]] + split_commas(s.skip(a)).drop_first() =~= split_commas(
            s.skip(a),
        ));
    } else {
        assert(s.skip(a).len() > 0);
        assert(s.skip(a)[0] == s[a]);
        assert(s[a] != ',');
        assert(s.skip(a).drop_first() =~= s.skip(a + 1));
        lemma_split_stretch(s, a + 1, b);
        let restsplit = split_commas(s.skip(a + 1));
        assert(split_commas(s.skip(a)) =~= seq![seq![s[a]] + restsplit[0]] + restsplit.drop_first());
        assert(restsplit[0] == s.subrange(a + 1, b) + split_commas(s.skip(b))[0]);
        assert(seq![s[a]] + (s.subrange(a + 1, b) + split_commas(s.skip(b))[0]) =~= s.subrange(
            a,
            b,
        ) + split_commas(s.skip(b))[0]);
        assert(restsplit.drop_first() =~= split_commas(s.skip(b)).drop_first());
    }
}

/// Split a text on commas and trim each segment, as the name lists of
/// the textual query interface are read.
pub fn split_and_trim(s: &str) -> (out: Vec<String>)
    ensures
        out@.len() == split_commas(s@).len(),
        forall|k: int|
            0 <= k < out@.len() ==> (#[trigger] out@[k])@ == trim_spec(split_commas(s@)[k]),
{
    let n = s.unicode_len();
    let mut out: Vec<String> = Vec::new();
    let mut seg_start: usize = 0;
    let mut i: usize = 0;
    proof {
        assert(s@.skip(0int) =~= s@);
        lemma_split_len(s@);
    }
    while i < n
        invariant
            0 <= seg_start <= i <= n,
            n == s@.len(),
            forall|j: int| seg_start <= j < i ==> s@[j] != ',',
            split_commas(s@).len() == out@.len() + split_commas(s@.skip(seg_start as int)).len(),
            split_commas(s@.skip(seg_start as int)).len() >= 1,
            forall|k: int|
                0 <= k < out@.len() ==> (#[trigger] out@[k])@ == trim_spec(split_commas(s@)[k]),
            forall|k: int|
                0 <= k < split_commas(s@.skip(seg_start as int)).len() ==> split_commas(s@)[out@.len()
                    + k] == #[trigger] split_commas(s@.skip(seg_start as int))[k],
        decreases n - i,
    {
        if s.get_char(i) == ',' {
            proof {
                lemma_split_stretch(s@, seg_start as int, i as int);
                assert(s@.skip(i as int)[0] == s@[i as int]);
                assert(s@.skip(i as int).drop_first() =~= s@.skip(i + 1int));
                assert(split_commas(s@.skip(i as int)) =~= seq![Seq::<char>::empty()]
                    + split_commas(s@.skip(i + 1int)));
                lemma_split_len(s@.skip(i + 1int));
                assert(split_commas(s@.skip(i as int))[0] =~= Seq::<char>::empty());
                assert(split_commas(s@.skip(seg_start as int))[0] == s@.subrange(
                    seg_start as int,
                    i as int,
                ) + Seq::<char>::empty());
                assert(s@.subrange(seg_start as int, i as int) + Seq::<char>::empty() =~= s@.subrange(
                    seg_start as int,
                    i as int,
                ));
                assert(split_commas(s@.skip(seg_start as int)).drop_first() =~= split_commas(
                    s@.skip(i + 1int),
                ));
            }
            let piece = trim_substring(s, seg_start, i);
            out.push(piece);
            seg_start = i + 1;
        }
        i += 1;
    }
    proof {
        lemma_split_stretch(s@, seg_start as int, n as int);
        assert(s@.skip(n as int) =~= Seq::<char>::empty());
        assert(split_commas(Seq::<char>::empty()) =~= seq![Seq::<char>::empty()]);
        assert(split_commas(s@.skip(n as int))[0] =~= Seq::<char>::empty());
        assert(split_commas(s@.skip(n as int)).drop_first() =~= Seq::<Seq<char>>::empty());
        assert(s@.subrange(seg_start as int, n as int) + split_commas(s@.skip(n as int))[0]
            =~= s@.subrange(seg_start as int, n as int));
        assert(split_commas(s@.skip(seg_start as int)) =~= seq![
            s@.subrange(seg_start as int, n as int)
        ]);
        assert(split_commas(s@.skip(seg_start as int)).len() == 1);
        assert(split_commas(s@.skip(seg_start as int))[0int] == s@.subrange(
            seg_start as int,
            n as int,
        ));
        assert(split_commas(s@)[out@.len() + 0int] == split_commas(s@.skip(seg_start as int))[0int]);
        assert(split_commas(s@)[out@.len() as int] == s@.subrange(seg_start as int, n as int));
    }
    let piece = trim_substring(s, seg_start, n);
    out.push(piece);
    out
}

} // verus!
