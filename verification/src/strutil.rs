//! Verified character- and string-level helpers shared by the parsing
//! modules: whitespace classification, first-occurrence search, decimal
//! parsing, splitting on a separator, and trimming.

use vstd::prelude::*;

verus! {

/// The Unicode `White_Space` characters, exactly the set recognised by
/// `char::is_whitespace`.
pub open spec fn is_wsp(c: char) -> bool {
    c == ' ' || c == '\t' || c == '\n' || c == '\r' || c == '\u{b}' || c == '\u{c}'
        || c == '\u{85}' || c == '\u{a0}' || c == '\u{1680}'
        || ('\u{2000}' <= c && c <= '\u{200a}')
        || c == '\u{2028}' || c == '\u{2029}' || c == '\u{202f}' || c == '\u{205f}'
        || c == '\u{3000}'
}

/// Executable mirror of `is_wsp`.
pub fn is_wsp_char(c: char) -> (r: bool)
    ensures
        r == is_wsp(c),
{
    c == ' ' || c == '\t' || c == '\n' || c == '\r' || c == '\u{b}' || c == '\u{c}'
        || c == '\u{85}' || c == '\u{a0}' || c == '\u{1680}'
        || ('\u{2000}' <= c && c <= '\u{200a}')
        || c == '\u{2028}' || c == '\u{2029}' || c == '\u{202f}' || c == '\u{205f}'
        || c == '\u{3000}'
}

/// Index of the first occurrence of `c` in `s` at or after position `i`.
pub open spec fn first_index_from(s: Seq<char>, c: char, i: int) -> Option<int>
    decreases s.len() - i,
{
    if i < 0 || i >= s.len() {
        None
    } else if s[i] == c {
        Some(i)
    } else {
        first_index_from(s, c, i + 1)
    }
}

/// `first_index_from(s, c, 0)` is the least index holding `c`, when one exists.
pub proof fn lemma_first_index(s: Seq<char>, c: char, i: int)
    requires
        0 <= i <= s.len(),
    ensures
        match first_index_from(s, c, i) {
            Some(j) => i <= j < s.len() && s[j] == c && (forall|k: int| i <= k < j ==> s[k] != c),
            None => forall|k: int| i <= k < s.len() ==> s[k] != c,
        },
    decreases s.len() - i,
{
    if i < s.len() && s[i] != c {
        lemma_first_index(s, c, i + 1);
    }
}

/// Finds the first occurrence of `c` in `s`.
pub fn find_char(s: &str, c: char) -> (r: Option<usize>)
    ensures
        r matches Some(j) ==> j < s@.len() && first_index_from(s@, c, 0) == Some(j as int),
        r is None ==> first_index_from(s@, c, 0) == None::<int>,
{
    let n: usize = s.unicode_len();
    let mut i: usize = 0;
    while i < n
        invariant
            n == s@.len(),
            0 <= i <= n,
            first_index_from(s@, c, 0) == first_index_from(s@, c, i as int),
        decreases n - i,
    {
        if s.get_char(i) == c {
            return Some(i);
        }
        i = i + 1;
    }
    None
}

/// Character-for-character string equality.
pub fn str_eq(a: &str, b: &str) -> (r: bool)
    ensures
        r == (a@ == b@),
{
    let na: usize = a.unicode_len();
    let nb: usize = b.unicode_len();
    if na != nb {
        return false;
    }
    let mut i: usize = 0;
    while i < na
        invariant
            na == a@.len(),
            na == b@.len(),
            0 <= i <= na,
            forall|k: int| 0 <= k < i ==> a@[k] == b@[k],
        decreases na - i,
    {
        if a.get_char(i) != b.get_char(i) {
            return false;
        }
        i = i + 1;
    }
    proof {
        assert(a@ =~= b@);
    }
    true
}

/// Decimal digits.
pub open spec fn is_dec_digit(c: char) -> bool {
    '0' <= c && c <= '9'
}

pub open spec fn dec_digit_val(c: char) -> nat {
    (c as nat - '0' as nat) as nat
}

/// Value of a digit string read from the left; non-digits contribute their
/// code-point offset, but `parse_u64_spec` only applies this to digit runs.
pub open spec fn dec_value(s: Seq<char>) -> nat
    decreases s.len(),
{
    if s.len() == 0 {
        0
    } else {
        dec_value(s.drop_last()) * 10 + dec_digit_val(s.last())
    }
}

pub open spec fn all_dec_digits(s: Seq<char>) -> bool {
    forall|k: int| 0 <= k < s.len() ==> is_dec_digit(#[trigger] s[k])
}

/// What `str::parse::<u64>` accepts: an optional leading `+`, then one or
/// more decimal digits, with a value that fits in the type.
pub open spec fn parse_u64_spec(s: Seq<char>) -> Option<u64> {
    let t = if s.len() > 0 && s[0] == '+' {
        s.skip(1)
    } else {
        s
    };
    if t.len() > 0 && all_dec_digits(t) && dec_value(t) <= u64::MAX {
        Some(dec_value(t) as u64)
    } else {
        None
    }
}

/// A longer digit string never has a smaller value.
proof fn lemma_dec_value_take_le(s: Seq<char>, i: int)
    requires
        0 <= i <= s.len(),
    ensures
        dec_value(s.take(i)) <= dec_value(s),
    decreases s.len() - i,
{
    if i < s.len() {
        lemma_dec_value_take_le(s, i + 1);
        assert(s.take(i + 1).drop_last() =~= s.take(i));
        assert(dec_value(s.take(i + 1)) == dec_value(s.take(i)) * 10 + dec_digit_val(s[i]));
    } else {
        assert(s.take(i) =~= s);
    }
}

/// Parses a run of decimal digits; `None` when `s` is empty, holds a
/// non-digit, or overflows `u64`.
fn parse_dec_digits(s: &str) -> (r: Option<u64>)
    ensures
        ({
            let ok = s@.len() > 0 && all_dec_digits(s@) && dec_value(s@) <= u64::MAX;
            match r {
                Some(v) => ok && v == dec_value(s@),
                None => !ok,
            }
        }),
{
    let n: usize = s.unicode_len();
    if n == 0 {
        return None;
    }
    let mut acc: u64 = 0;
    let mut i: usize = 0;
    while i < n
        invariant
            n == s@.len(),
            0 <= i <= n,
            all_dec_digits(s@.take(i as int)),
            acc == dec_value(s@.take(i as int)),
        decreases n - i,
    {
        let c = s.get_char(i);
        if !('0' <= c && c <= '9') {
            return None;
        }
        let d: u64 = (c as u32 - '0' as u32) as u64;
        proof {
            assert(s@.take(i as int + 1).drop_last() =~= s@.take(i as int));
        }
        let shifted = match acc.checked_mul(10) {
            Some(x) => x,
            None => {
                proof {
                    lemma_dec_value_take_le(s@, i as int + 1);
                }
                return None;
            },
        };
        acc = match shifted.checked_add(d) {
            Some(x) => x,
            None => {
                proof {
                    lemma_dec_value_take_le(s@, i as int + 1);
                }
                return None;
            },
        };
        i = i + 1;
    }
    proof {
        assert(s@.take(n as int) =~= s@);
    }
    Some(acc)
}

/// Verified equivalent of `str::parse::<u64>`, with `Ok`/`Err` reduced to
/// `Some`/`None`.
pub fn parse_u64(s: &str) -> (r: Option<u64>)
    ensures
        r == parse_u64_spec(s@),
{
    let n: usize = s.unicode_len();
    if n > 0 && s.get_char(0) == '+' {
        let rest = s.substring_char(1, n);
        parse_dec_digits(rest)
    } else {
        parse_dec_digits(s)
    }
}

/// The mathematical value `str::parse` reads from a signed decimal
/// string: an optional sign, then one or more digits.  `None` on any
/// other shape; range checks come with the target type.
pub open spec fn parse_int_spec(s: Seq<char>) -> Option<int> {
    let neg = s.len() > 0 && s[0] == '-';
    let t = if s.len() > 0 && (s[0] == '+' || s[0] == '-') {
        s.skip(1)
    } else {
        s
    };
    if t.len() > 0 && all_dec_digits(t) {
        if neg {
            Some(-(dec_value(t) as int))
        } else {
            Some(dec_value(t) as int)
        }
    } else {
        None
    }
}

/// What `str::parse::<i64>` accepts.
pub open spec fn parse_i64_spec(s: Seq<char>) -> Option<i64> {
    match parse_int_spec(s) {
        Some(v) => if i64::MIN <= v <= i64::MAX {
            Some(v as i64)
        } else {
            None
        },
        None => None,
    }
}

/// What `str::parse::<i32>` accepts.
pub open spec fn parse_i32_spec(s: Seq<char>) -> Option<i32> {
    match parse_int_spec(s) {
        Some(v) => if i32::MIN <= v <= i32::MAX {
            Some(v as i32)
        } else {
            None
        },
        None => None,
    }
}

/// Verified equivalent of `str::parse::<i64>`, with `Ok`/`Err` reduced to
/// `Some`/`None`.
pub fn parse_i64(s: &str) -> (r: Option<i64>)
    ensures
        r == parse_i64_spec(s@),
{
    let n: usize = s.unicode_len();
    if n == 0 {
        return None;
    }
    let c0 = s.get_char(0);
    if c0 == '-' {
        let rest = s.substring_char(1, n);
        proof {
            assert(rest@ =~= s@.skip(1));
        }
        match parse_dec_digits(rest) {
            Some(mag) => {
                if mag <= 0x7fff_ffff_ffff_ffffu64 {
                    Some(-(mag as i64))
                } else if mag == 0x8000_0000_0000_0000u64 {
                    Some(i64::MIN)
                } else {
                    None
                }
            },
            None => None,
        }
    } else if c0 == '+' {
        let rest = s.substring_char(1, n);
        proof {
            assert(rest@ =~= s@.skip(1));
        }
        match parse_dec_digits(rest) {
            Some(mag) => {
                if mag <= 0x7fff_ffff_ffff_ffffu64 {
                    Some(mag as i64)
                } else {
                    None
                }
            },
            None => None,
        }
    } else {
        match parse_dec_digits(s) {
            Some(mag) => {
                if mag <= 0x7fff_ffff_ffff_ffffu64 {
                    Some(mag as i64)
                } else {
                    None
                }
            },
            None => None,
        }
    }
}

/// Verified equivalent of `str::parse::<i32>`.
pub fn parse_i32(s: &str) -> (r: Option<i32>)
    ensures
        r == parse_i32_spec(s@),
{
    match parse_i64(s) {
        Some(v) => {
            if -0x8000_0000i64 <= v && v <= 0x7fff_ffffi64 {
                Some(v as i32)
            } else {
                None
            }
        },
        None => None,
    }
}

/// Whether a name list holds `name`.
pub open spec fn seq_contains_str(sv: Seq<Seq<char>>, k: Seq<char>) -> bool {
    exists|i: int| 0 <= i < sv.len() && sv[i] == k
}

/// Linear scan of a name list.
pub fn contains_name(v: &Vec<String>, name: &str) -> (r: bool)
    ensures
        r == seq_contains_str(v@.map_values(|s: String| s@), name@),
{
    let ghost sv = v@.map_values(|s: String| s@);
    let n: usize = v.len();
    let mut i: usize = 0;
    while i < n
        invariant
            n == v@.len(),
            0 <= i <= n,
            sv == v@.map_values(|s: String| s@),
            forall|k: int| 0 <= k < i ==> #[trigger] sv[k] != name@,
        decreases n - i,
    {
        let e: &String = &v[i];
        proof {
            assert(sv[i as int] == e@);
        }
        if str_eq(e.as_str(), name) {
            return true;
        }
        i = i + 1;
    }
    false
}

/// Splitting on a separator character, exactly as `str::split` does: every
/// occurrence of `sep` ends a part, empty parts included, and an empty
/// input yields one empty part.
pub open spec fn split_char(s: Seq<char>, sep: char) -> Seq<Seq<char>>
    decreases s.len(),
{
    if s.len() == 0 {
        seq![Seq::<char>::empty()]
    } else {
        let prev = split_char(s.drop_last(), sep);
        if s.last() == sep {
            prev.push(Seq::<char>::empty())
        } else {
            prev.update(prev.len() - 1, prev.last().push(s.last()))
        }
    }
}

pub proof fn lemma_split_char_len(s: Seq<char>, sep: char)
    ensures
        split_char(s, sep).len() >= 1,
    decreases s.len(),
{
    if s.len() > 0 {
        lemma_split_char_len(s.drop_last(), sep);
    }
}

/// Splits `s` on `sep` into owned parts.
pub fn split_on_char(s: &str, sep: char) -> (r: Vec<String>)
    ensures
        r@.map_values(|p: String| p@) == split_char(s@, sep),
{
    let n: usize = s.unicode_len();
    let mut done: Vec<String> = Vec::new();
    let mut start: usize = 0;
    let mut i: usize = 0;
    while i < n
        invariant
            n == s@.len(),
            0 <= start <= i <= n,
            split_char(s@.take(i as int), sep).len() == done@.len() + 1,
            forall|k: int|
                0 <= k < done@.len() ==> #[trigger] done@[k]@ == split_char(
                    s@.take(i as int),
                    sep,
                )[k],
            split_char(s@.take(i as int), sep).last() == s@.subrange(start as int, i as int),
        decreases n - i,
    {
        let c = s.get_char(i);
        proof {
            assert(s@.take(i as int + 1).drop_last() =~= s@.take(i as int));
            lemma_split_char_len(s@.take(i as int), sep);
        }
        if c == sep {
            let part = s.substring_char(start, i).to_owned();
            done.push(part);
            proof {
                let cur = split_char(s@.take(i as int + 1), sep);
                let prev = split_char(s@.take(i as int), sep);
                assert(cur == prev.push(Seq::<char>::empty()));
                assert(done@.last()@ == prev.last());
                assert(cur.last() =~= s@.subrange(i as int + 1, i as int + 1));
            }
            start = i + 1;
        } else {
            proof {
                let cur = split_char(s@.take(i as int + 1), sep);
                let prev = split_char(s@.take(i as int), sep);
                assert(cur == prev.update(prev.len() - 1, prev.last().push(s@[i as int])));
                assert(cur.last() =~= s@.subrange(start as int, i as int + 1));
                assert(forall|k: int| 0 <= k < cur.len() - 1 ==> cur[k] == prev[k]);
            }
        }
        i = i + 1;
    }
    let last_part = s.substring_char(start, n).to_owned();
    done.push(last_part);
    proof {
        assert(s@.take(n as int) =~= s@);
        lemma_split_char_len(s@, sep);
        let sp = split_char(s@, sep);
        assert(done@.last()@ == sp.last());
        assert forall|k: int| 0 <= k < done@.len() implies done@.map_values(|p: String| p@)[k]
            == sp[k] by {
            assert(done@.map_values(|p: String| p@)[k] == done@[k]@);
            if k == done@.len() - 1 {
                assert(done@[k]@ == sp[k]);
            }
        }
        assert(done@.map_values(|p: String| p@) =~= sp);
    }
    done
}

/// Number of leading characters of `s` satisfying `is_wsp`.
pub open spec fn lead_wsp_len(s: Seq<char>) -> int
    decreases s.len(),
{
    if s.len() == 0 || !is_wsp(s[0]) {
        0
    } else {
        1 + lead_wsp_len(s.skip(1))
    }
}

pub proof fn lemma_lead_wsp_len(s: Seq<char>)
    ensures
        0 <= lead_wsp_len(s) <= s.len(),
        forall|k: int| 0 <= k < lead_wsp_len(s) ==> is_wsp(#[trigger] s[k]),
        lead_wsp_len(s) < s.len() ==> !is_wsp(s[lead_wsp_len(s)]),
    decreases s.len(),
{
    if s.len() > 0 && is_wsp(s[0]) {
        lemma_lead_wsp_len(s.skip(1));
        assert forall|k: int| 0 <= k < lead_wsp_len(s) implies is_wsp(#[trigger] s[k]) by {
            if k > 0 {
                assert(s.skip(1)[k - 1] == s[k]);
            }
        }
        if lead_wsp_len(s) < s.len() {
            assert(s.skip(1)[lead_wsp_len(s) - 1] == s[lead_wsp_len(s)]);
        }
    }
}

/// What `str::trim` leaves: `s` with the longest whitespace prefix and
/// suffix removed.
pub open spec fn trim_spec(s: Seq<char>) -> Seq<char> {
    let a = lead_wsp_len(s);
    let b = s.len() - lead_wsp_len(s.reverse());
    if a >= b {
        Seq::<char>::empty()
    } else {
        s.subrange(a, b)
    }
}

/// Verified equivalent of `str::trim`.
pub fn trim_str(s: &str) -> (r: String)
    ensures
        r@ == trim_spec(s@),
{
    let n: usize = s.unicode_len();
    let mut a: usize = 0;
    while a < n && is_wsp_char(s.get_char(a))
        invariant
            n == s@.len(),
            0 <= a <= n,
            forall|k: int| 0 <= k < a ==> is_wsp(#[trigger] s@[k]),
        decreases n - a,
    {
        a = a + 1;
    }
    proof {
        if a < n {
            lemma_lead_wsp_stop(s@, a as int);
        } else if n > 0 {
            lemma_lead_wsp_step(s@, n as int - 1);
            lemma_lead_wsp_len(s@);
        }
    }
    let mut b: usize = n;
    while b > a && is_wsp_char(s.get_char(b - 1))
        invariant
            n == s@.len(),
            a <= b <= n,
            forall|k: int| b <= k < n ==> is_wsp(#[trigger] s@[k]),
        decreases b,
    {
        b = b - 1;
    }
    proof {
        lemma_trim_bounds(s@, a as int, b as int);
    }
    s.substring_char(a, b).to_owned()
}

/// If the first `i` characters are whitespace and so is `s[i]`, the
/// whitespace prefix extends past `i`.
proof fn lemma_lead_wsp_step(s: Seq<char>, i: int)
    requires
        0 <= i < s.len(),
        forall|k: int| 0 <= k < i ==> is_wsp(#[trigger] s[k]),
        is_wsp(s[i]),
    ensures
        lead_wsp_len(s) >= i + 1,
    decreases i,
{
    assert(is_wsp(s[0]));
    lemma_lead_wsp_len(s.skip(1));
    if i > 0 {
        assert forall|k: int| 0 <= k < i - 1 implies is_wsp(#[trigger] s.skip(1)[k]) by {
            assert(s.skip(1)[k] == s[k + 1]);
        }
        assert(s.skip(1)[i - 1] == s[i]);
        lemma_lead_wsp_step(s.skip(1), i - 1);
    }
}

/// If the first `i` characters are whitespace and `s[i]` is not, the
/// whitespace prefix is exactly `i`.
proof fn lemma_lead_wsp_stop(s: Seq<char>, i: int)
    requires
        0 <= i < s.len(),
        forall|k: int| 0 <= k < i ==> is_wsp(#[trigger] s[k]),
        !is_wsp(s[i]),
    ensures
        lead_wsp_len(s) == i,
    decreases i,
{
    if i > 0 {
        assert(is_wsp(s[0]));
        assert forall|k: int| 0 <= k < i - 1 implies is_wsp(#[trigger] s.skip(1)[k]) by {
            assert(s.skip(1)[k] == s[k + 1]);
        }
        assert(s.skip(1)[i - 1] == s[i]);
        lemma_lead_wsp_stop(s.skip(1), i - 1);
    }
}

/// Relates the two scan endpoints to `trim_spec`.
proof fn lemma_trim_bounds(s: Seq<char>, a: int, b: int)
    requires
        0 <= a <= b <= s.len(),
        a == lead_wsp_len(s),
        forall|k: int| b <= k < s.len() ==> is_wsp(#[trigger] s[k]),
        b > a ==> !is_wsp(s[b - 1]),
    ensures
        trim_spec(s) =~= s.subrange(a, b),
{
    let r = s.reverse();
    lemma_lead_wsp_len(s);
    assert(forall|k: int| 0 <= k < s.len() ==> r[k] == s[#[trigger] (s.len() - 1 - k)]);
    if b > a {
        assert forall|k: int| 0 <= k < s.len() - b implies is_wsp(#[trigger] r[k]) by {
            assert(r[k] == s[s.len() - 1 - k]);
        }
        assert(r[s.len() - b] == s[b - 1]);
        lemma_lead_wsp_stop(r, s.len() - b);
    } else {
        if a < s.len() {
            assert(is_wsp(s[a]) && !is_wsp(s[a]));
        }
        if s.len() > 0 {
            assert forall|k: int| 0 <= k < s.len() implies is_wsp(#[trigger] r[k]) by {
                assert(r[k] == s[s.len() - 1 - k]);
            }
            lemma_lead_wsp_step(r, s.len() - 1);
            lemma_lead_wsp_len(r);
        }
    }
}

} // verus!
