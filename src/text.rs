use vstd::prelude::*;
use vstd::std_specs::iter::IteratorSpec;

verus! {

broadcast use vstd::string::group_string_axioms;

/// Whitespace as `char::is_whitespace` defines it (the Unicode `White_Space` property).
pub open spec fn is_space_spec(c: char) -> bool {
    ('\t' <= c && c <= '\r') || c == ' ' || c == '\u{85}' || c == '\u{a0}' || c == '\u{1680}'
        || ('\u{2000}' <= c && c <= '\u{200a}') || c == '\u{2028}' || c == '\u{2029}'
        || c == '\u{202f}' || c == '\u{205f}' || c == '\u{3000}'
}

pub fn is_space(c: char) -> (r: bool)
    ensures
        r == is_space_spec(c),
{
    ('\t' <= c && c <= '\r') || c == ' ' || c == '\u{85}' || c == '\u{a0}' || c == '\u{1680}'
        || ('\u{2000}' <= c && c <= '\u{200a}') || c == '\u{2028}' || c == '\u{2029}'
        || c == '\u{202f}' || c == '\u{205f}' || c == '\u{3000}'
}

/// The characters of a string slice, in order.
pub fn chars_of(s: &str) -> (r: Vec<char>)
    ensures
        r@ == s@,
{
    let mut it = s.chars();
    let mut out: Vec<char> = Vec::new();
    loop
        invariant
            out@ + it.remaining() == s@,
            it.obeys_prophetic_iter_laws(),
            it.decrease() is Some,
        ensures
            out@ == s@,
        decreases it.decrease()->0,
    {
        match it.next() {
            Some(c) => {
                out.push(c);
                proof {
                    assert(out@ + it.remaining() =~= s@);
                }
            },
            None => {
                assert(out@ =~= s@);
                break;
            },
        }
    }
    out
}

/// The characters `s[a..b]`.
pub fn copy_range(s: &[char], a: usize, b: usize) -> (r: Vec<char>)
    requires
        a <= b <= s@.len(),
    ensures
        r@ == s@.subrange(a as int, b as int),
{
    let mut out: Vec<char> = Vec::new();
    let mut i: usize = a;
    while i < b
        invariant
            a <= i <= b <= s@.len(),
            out@ == s@.subrange(a as int, i as int),
        decreases b - i,
    {
        out.push(s[i]);
        assert(out@ =~= s@.subrange(a as int, i + 1));
        i += 1;
    }
    out
}

/// Number of whitespace characters at the start of `s`.
pub open spec fn lead_spaces(s: Seq<char>) -> nat
    decreases s.len(),
{
    if s.len() == 0 || !is_space_spec(s[0]) {
        0
    } else {
        1 + lead_spaces(s.drop_first())
    }
}

/// Number of whitespace characters at the end of `s`.
pub open spec fn trail_spaces(s: Seq<char>) -> nat
    decreases s.len(),
{
    if s.len() == 0 || !is_space_spec(s.last()) {
        0
    } else {
        1 + trail_spaces(s.drop_last())
    }
}

/// `s` without leading whitespace.
pub open spec fn trim_start_spec(s: Seq<char>) -> Seq<char> {
    s.subrange(lead_spaces(s) as int, s.len() as int)
}

/// `s` without leading and trailing whitespace, as `str::trim` gives it.
pub open spec fn trim_spec(s: Seq<char>) -> Seq<char> {
    let t = trim_start_spec(s);
    t.subrange(0, t.len() - trail_spaces(t))
}

pub proof fn lemma_lead_bound(s: Seq<char>)
    ensures
        lead_spaces(s) <= s.len(),
    decreases s.len(),
{
    if s.len() > 0 && is_space_spec(s[0]) {
        lemma_lead_bound(s.drop_first());
    }
}

fn lead_count(s: &[char], from: usize, to: usize) -> (r: usize)
    requires
        from <= to <= s@.len(),
    ensures
        from <= r <= to,
        r == from + lead_spaces(s@.subrange(from as int, to as int)),
{
    let mut i: usize = from;
    while i < to && is_space(s[i])
        invariant
            from <= i <= to <= s@.len(),
            from + lead_spaces(s@.subrange(from as int, to as int)) == i + lead_spaces(
                s@.subrange(i as int, to as int),
            ),
        decreases to - i,
    {
        assert(s@.subrange(i as int, to as int).drop_first() =~= s@.subrange(i + 1, to as int));
        i += 1;
    }
    i
}

fn trail_count(s: &[char], from: usize, to: usize) -> (r: usize)
    requires
        from <= to <= s@.len(),
    ensures
        from <= r <= to,
        to - r == trail_spaces(s@.subrange(from as int, to as int)),
{
    let mut j: usize = to;
    while j > from && is_space(s[j - 1])
        invariant
            from <= j <= to <= s@.len(),
            trail_spaces(s@.subrange(from as int, to as int)) == (to - j) + trail_spaces(
                s@.subrange(from as int, j as int),
            ),
        decreases j - from,
    {
        assert(s@.subrange(from as int, j as int).drop_last() =~= s@.subrange(
            from as int,
            j - 1,
        ));
        j -= 1;
    }
    j
}

/// `s` with leading and trailing whitespace removed.
pub fn trim(s: &[char]) -> (r: Vec<char>)
    ensures
        r@ == trim_spec(s@),
{
    let n = s.len();
    let a = lead_count(s, 0, n);
    assert(s@.subrange(0, n as int) =~= s@);
    let b = trail_count(s, a, n);
    let r = copy_range(s, a, b);
    assert(r@ =~= trim_spec(s@));
    r
}

/// Index of the first `'#'` in `s`, or its length.
pub open spec fn hash_index(s: Seq<char>) -> nat
    decreases s.len(),
{
    if s.len() == 0 || s[0] == '#' {
        0
    } else {
        1 + hash_index(s.drop_first())
    }
}

/// Index of the first `"//"` in `s`, or its length.
pub open spec fn slashes_index(s: Seq<char>) -> nat
    decreases s.len(),
{
    if s.len() < 2 {
        s.len()
    } else if s[0] == '/' && s[1] == '/' {
        0
    } else {
        1 + slashes_index(s.drop_first())
    }
}

/// A field value with any trailing inline comment (from the first `#`, then from the
/// first `//`) removed, trimmed before and after.
pub open spec fn strip_comment_spec(v: Seq<char>) -> Seq<char> {
    let t = trim_spec(v);
    let t1 = t.take(hash_index(t) as int);
    let t2 = t1.take(slashes_index(t1) as int);
    trim_spec(t2)
}

fn hash_pos(s: &[char]) -> (r: usize)
    ensures
        r == hash_index(s@),
        r <= s@.len(),
{
    let mut i: usize = 0;
    assert(s@.subrange(0, s@.len() as int) =~= s@);
    while i < s.len() && s[i] != '#'
        invariant
            i <= s@.len(),
            hash_index(s@) == i + hash_index(s@.subrange(i as int, s@.len() as int)),
        decreases s.len() - i,
    {
        assert(s@.subrange(i as int, s@.len() as int).drop_first() =~= s@.subrange(
            i + 1,
            s@.len() as int,
        ));
        i += 1;
    }
    i
}

fn slashes_pos(s: &[char]) -> (r: usize)
    ensures
        r == slashes_index(s@),
        r <= s@.len(),
{
    let mut i: usize = 0;
    assert(s@.subrange(0, s@.len() as int) =~= s@);
    while i < s.len() && i + 1 < s.len() && !(s[i] == '/' && s[i + 1] == '/')
        invariant
            i <= s@.len(),
            slashes_index(s@) == i + slashes_index(s@.subrange(i as int, s@.len() as int)),
        decreases s.len() - i,
    {
        assert(s@.subrange(i as int, s@.len() as int).drop_first() =~= s@.subrange(
            i + 1,
            s@.len() as int,
        ));
        i += 1;
    }
    if i >= s.len() || i + 1 >= s.len() {
        i = s.len();
    }
    i
}

/// Removes a trailing inline comment from a field value and trims it.
pub fn strip_inline_comment(value: &[char]) -> (r: Vec<char>)
    ensures
        r@ == strip_comment_spec(value@),
{
    let t = trim(value);
    let h = hash_pos(t.as_slice());
    let t1 = copy_range(t.as_slice(), 0, h);
    assert(t1@ =~= t@.take(h as int));
    let k = slashes_pos(t1.as_slice());
    let t2 = copy_range(t1.as_slice(), 0, k);
    assert(t2@ =~= t1@.take(k as int));
    trim(t2.as_slice())
}

/// What `char::to_lowercase` yields for `c`.
pub uninterp spec fn lower_of(c: char) -> Seq<char>;

/// Relies on `char::to_lowercase`: the lowercase mapping of `c`, one or more characters.
#[verifier::external_body]
fn lowercase_char(c: char) -> (r: Vec<char>)
    ensures
        r@ == lower_of(c),
{
    c.to_lowercase().collect()
}

/// Characters that name comparison ignores.
pub open spec fn is_name_separator(c: char) -> bool {
    c == ' ' || c == '\t' || c == '-' || c == '_'
}

/// A column name with separators removed and every other character lowercased.
pub open spec fn normalize_spec(s: Seq<char>) -> Seq<char>
    decreases s.len(),
{
    if s.len() == 0 {
        Seq::empty()
    } else {
        let rest = normalize_spec(s.drop_last());
        if is_name_separator(s.last()) {
            rest
        } else {
            rest + lower_of(s.last())
        }
    }
}

/// Normalizes a column name: spaces, tabs, hyphens and underscores are dropped and the
/// rest is lowercased.
pub fn normalize_name(name: &[char]) -> (r: Vec<char>)
    ensures
        r@ == normalize_spec(name@),
{
    let mut out: Vec<char> = Vec::new();
    let mut i: usize = 0;
    while i < name.len()
        invariant
            i <= name@.len(),
            out@ == normalize_spec(name@.take(i as int)),
        decreases name.len() - i,
    {
        let c = name[i];
        assert(name@.take(i + 1).drop_last() =~= name@.take(i as int));
        if !(c == ' ' || c == '\t' || c == '-' || c == '_') {
            let mut low = lowercase_char(c);
            out.append(&mut low);
        }
        i += 1;
    }
    assert(name@.take(name@.len() as int) =~= name@);
    out
}

/// `s` with every character lowercased.
pub open spec fn lowercase_spec(s: Seq<char>) -> Seq<char>
    decreases s.len(),
{
    if s.len() == 0 {
        Seq::empty()
    } else {
        lowercase_spec(s.drop_last()) + lower_of(s.last())
    }
}

/// Lowercases every character of `s`.
pub fn lowercase(s: &[char]) -> (r: Vec<char>)
    ensures
        r@ == lowercase_spec(s@),
{
    let mut out: Vec<char> = Vec::new();
    let mut i: usize = 0;
    while i < s.len()
        invariant
            i <= s@.len(),
            out@ == lowercase_spec(s@.take(i as int)),
        decreases s.len() - i,
    {
        assert(s@.take(i + 1).drop_last() =~= s@.take(i as int));
        let mut low = lowercase_char(s[i]);
        out.append(&mut low);
        i += 1;
    }
    assert(s@.take(s@.len() as int) =~= s@);
    out
}

pub open spec fn is_digit_spec(c: char) -> bool {
    '0' <= c && c <= '9'
}

pub open spec fn all_digits(s: Seq<char>) -> bool {
    forall|i: int| 0 <= i < s.len() ==> is_digit_spec(#[trigger] s[i])
}

/// The number written by a string of decimal digits.
pub open spec fn digits_value(s: Seq<char>) -> int
    decreases s.len(),
{
    if s.len() == 0 {
        0
    } else {
        digits_value(s.drop_last()) * 10 + (s.last() as int - '0' as int)
    }
}

/// The integer written by `s`: an optional `+` or `-`, then one or more decimal digits.
pub open spec fn int_text_value(s: Seq<char>) -> Option<int> {
    if s.len() > 0 && (s[0] == '-' || s[0] == '+') {
        let d = s.drop_first();
        if d.len() > 0 && all_digits(d) {
            if s[0] == '-' {
                Some(-digits_value(d))
            } else {
                Some(digits_value(d))
            }
        } else {
            None
        }
    } else if s.len() > 0 && all_digits(s) {
        Some(digits_value(s))
    } else {
        None
    }
}

/// What `str::parse::<i64>` gives: the integer written by `s` when it fits in an `i64`.
pub open spec fn parse_i64_spec(s: Seq<char>) -> Option<i64> {
    match int_text_value(s) {
        Some(v) => if i64::MIN <= v <= i64::MAX {
            Some(v as i64)
        } else {
            None
        },
        None => None,
    }
}

pub proof fn lemma_digits_value_grows(s: Seq<char>, k: int)
    requires
        all_digits(s),
        0 <= k <= s.len(),
    ensures
        0 <= digits_value(s.take(k)) <= digits_value(s),
    decreases s.len(),
{
    if s.len() > 0 {
        let d = s.drop_last();
        assert(all_digits(d)) by {
            assert forall|i: int| 0 <= i < d.len() implies is_digit_spec(#[trigger] d[i]) by {
                assert(d[i] == s[i]);
            }
        }
        if k == s.len() {
            assert(s.take(k) =~= s);
            lemma_digits_value_grows(d, d.len() as int);
            assert(d.take(d.len() as int) =~= d);
            assert(is_digit_spec(s[s.len() - 1]));
        } else {
            lemma_digits_value_grows(d, k);
            assert(d.take(k) =~= s.take(k));
            lemma_digits_value_grows(d, d.len() as int);
            assert(d.take(d.len() as int) =~= d);
            assert(is_digit_spec(s[s.len() - 1]));
        }
    } else {
        assert(s.take(k) =~= s);
    }
}

/// Parses a decimal integer as `str::parse::<i64>` does.
pub fn parse_i64(s: &[char]) -> (r: Option<i64>)
    ensures
        r == parse_i64_spec(s@),
{
    let n = s.len();
    if n == 0 {
        return None;
    }
    let negative = s[0] == '-';
    let start: usize = if s[0] == '-' || s[0] == '+' { 1 } else { 0 };
    if start == n {
        return None;
    }
    let ghost d = s@.subrange(start as int, n as int);
    assert(start == 0 ==> d =~= s@);
    assert(start == 1 ==> d =~= s@.drop_first());
    let mut acc: i64 = 0;
    let mut i: usize = start;
    while i < n
        invariant
            start <= i <= n == s@.len(),
            start < n,
            start <= 1,
            d == s@.subrange(start as int, n as int),
            start == 0 ==> d == s@,
            start == 1 ==> d == s@.drop_first(),
            start == 1 <==> (s@[0] == '-' || s@[0] == '+'),
            negative <==> s@[0] == '-',
            forall|k: int| start <= k < i ==> is_digit_spec(#[trigger] s@[k]),
            negative ==> acc == -digits_value(d.take(i - start)),
            !negative ==> acc == digits_value(d.take(i - start)),
        decreases n - i,
    {
        let c = s[i];
        if !('0' <= c && c <= '9') {
            assert(d[i - start] == c);
            assert(!all_digits(d));
            return None;
        }
        let dig: i64 = (c as u32 - '0' as u32) as i64;
        let ghost prev = d.take(i - start);
        assert(d.take(i + 1 - start).drop_last() =~= prev);
        let next = if negative {
            match acc.checked_mul(10) {
                Some(m) => m.checked_sub(dig),
                None => None,
            }
        } else {
            match acc.checked_mul(10) {
                Some(m) => m.checked_add(dig),
                None => None,
            }
        };
        match next {
            Some(v) => {
                acc = v;
            },
            None => {
                proof {
                    if all_digits(d) {
                        lemma_digits_value_grows(d, i + 1 - start);
                        lemma_digits_value_grows(d, i - start);
                        let pv = digits_value(prev);
                        let nv = digits_value(d.take(i + 1 - start));
                        assert(d.take(i + 1 - start).last() == c);
                        assert(nv == pv * 10 + dig);
                        assert(nv <= digits_value(d));
                        if negative {
                            assert(-nv < i64::MIN);
                            assert(int_text_value(s@) == Some(-digits_value(d)));
                        } else {
                            assert(nv > i64::MAX);
                            assert(d.len() > 0);
                            if start == 0 {
                                assert(all_digits(s@));
                            } else {
                                assert(s@[0] == '+');
                            }
                            assert(int_text_value(s@) == Some(digits_value(d)));
                        }
                    } else {
                        assert(int_text_value(s@) is None);
                    }
                }
                return None;
            },
        }
        i += 1;
    }
    assert(d.take(n - start) =~= d);
    assert(all_digits(d)) by {
        assert forall|k: int| 0 <= k < d.len() implies is_digit_spec(#[trigger] d[k]) by {
            assert(d[k] == s@[k + start]);
        }
    }
    Some(acc)
}

} // verus!
