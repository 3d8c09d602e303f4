//! Character-level string operations with exact specifications over `Seq<char>`.
use vstd::prelude::*;

verus! {

/// Whether `c` has the Unicode `White_Space` property, the property that
/// `char::is_whitespace` and `str::trim` go by.
pub open spec fn is_white_space(c: char) -> bool {
    let n = c as u32;
    ||| 0x9 <= n <= 0xD
    ||| n == 0x20
    ||| n == 0x85
    ||| n == 0xA0
    ||| n == 0x1680
    ||| 0x2000 <= n <= 0x200A
    ||| n == 0x2028
    ||| n == 0x2029
    ||| n == 0x202F
    ||| n == 0x205F
    ||| n == 0x3000
}

/// `s` without its leading white space.
pub open spec fn trim_start_spec(s: Seq<char>) -> Seq<char>
    decreases s.len(),
{
    if s.len() > 0 && is_white_space(s[0]) {
        trim_start_spec(s.drop_first())
    } else {
        s
    }
}

/// `s` without its trailing white space.
pub open spec fn trim_end_spec(s: Seq<char>) -> Seq<char>
    decreases s.len(),
{
    if s.len() > 0 && is_white_space(s.last()) {
        trim_end_spec(s.drop_last())
    } else {
        s
    }
}

/// `s` without leading and trailing white space, as `str::trim` returns it.
pub open spec fn trim_spec(s: Seq<char>) -> Seq<char> {
    trim_end_spec(trim_start_spec(s))
}

/// `s` without the run of `'/'` that it ends with.
pub open spec fn trim_trailing_slashes(s: Seq<char>) -> Seq<char>
    decreases s.len(),
{
    if s.len() > 0 && s.last() == '/' {
        trim_trailing_slashes(s.drop_last())
    } else {
        s
    }
}

/// `s` with every occurrence of `from` replaced by `to`, scanning from the left
/// and never letting two replaced occurrences overlap, as `str::replace` does.
pub open spec fn replace_spec(s: Seq<char>, from: Seq<char>, to: Seq<char>) -> Seq<char>
    decreases s.len(),
{
    if s.len() == 0 {
        Seq::empty()
    } else if from.len() > 0 && from.is_prefix_of(s) {
        to + replace_spec(s.skip(from.len() as int), from, to)
    } else {
        seq![s[0]] + replace_spec(s.drop_first(), from, to)
    }
}

/// Whether `s` holds `pattern` anywhere.
pub open spec fn contains_seq(s: Seq<char>, pattern: Seq<char>) -> bool {
    exists|i: int| 0 <= i <= s.len() - pattern.len() && #[trigger] s.subrange(i, i + pattern.len()) == pattern
}

pub open spec fn is_ascii_digit(c: char) -> bool {
    '0' <= c <= '9'
}

/// The number of ASCII digits that `s` starts with.
pub open spec fn digit_run(s: Seq<char>) -> nat
    decreases s.len(),
{
    if s.len() > 0 && is_ascii_digit(s[0]) {
        1 + digit_run(s.drop_first())
    } else {
        0
    }
}

/// The value of a run of ASCII decimal digits.
pub open spec fn digits_value(s: Seq<char>) -> nat
    decreases s.len(),
{
    if s.len() == 0 {
        0
    } else {
        digits_value(s.drop_last()) * 10 + ((s.last() as int) - ('0' as int)) as nat
    }
}

/// The value that `str::parse` gives an unsigned integer type for `s`, before
/// the range of the type is taken into account: an optional `'+'`, then one or
/// more ASCII digits; anything else has no value.
pub open spec fn unsigned_literal_value(s: Seq<char>) -> Option<nat> {
    let d = if s.len() > 0 && s[0] == '+' {
        s.drop_first()
    } else {
        s
    };
    if d.len() > 0 && digit_run(d) == d.len() {
        Some(digits_value(d))
    } else {
        None
    }
}

/// An optional exponent: nothing, or `e`/`E`, an optional sign and one or more digits.
pub open spec fn is_optional_exponent(s: Seq<char>) -> bool {
    ||| s.len() == 0
    ||| {
        &&& (s[0] == 'e' || s[0] == 'E')
        &&& {
            let t = s.drop_first();
            let d = if t.len() > 0 && (t[0] == '+' || t[0] == '-') {
                t.drop_first()
            } else {
                t
            };
            d.len() > 0 && digit_run(d) == d.len()
        }
    }
}

/// The decimal form of the float grammar:
/// `( Digit+ | Digit+ '.' Digit* | Digit* '.' Digit+ ) Exp?`.
pub open spec fn is_decimal_number(s: Seq<char>) -> bool {
    let a = digit_run(s);
    let rest = s.skip(a as int);
    if rest.len() > 0 && rest[0] == '.' {
        let after = rest.drop_first();
        let b = digit_run(after);
        a + b > 0 && is_optional_exponent(after.skip(b as int))
    } else {
        a > 0 && is_optional_exponent(rest)
    }
}

/// Whether `s` is `lower` with each letter in either case (`upper` holds the
/// same word in capitals).
pub open spec fn matches_either_case(s: Seq<char>, lower: Seq<char>, upper: Seq<char>) -> bool {
    &&& s.len() == lower.len()
    &&& s.len() == upper.len()
    &&& forall|i: int| 0 <= i < s.len() ==> (s[i] == lower[i] || s[i] == upper[i])
}

/// Whether `str::parse::<f64>` accepts `s`. Its documentation gives the grammar,
/// which it applies after lower-casing the input:
/// `Float ::= Sign? ( 'inf' | 'infinity' | 'nan' | Number )`, with `Number` as in
/// `is_decimal_number`; white space anywhere is an error.
pub open spec fn is_float_literal(s: Seq<char>) -> bool {
    let body = if s.len() > 0 && (s[0] == '+' || s[0] == '-') {
        s.drop_first()
    } else {
        s
    };
    ||| matches_either_case(body, seq!['i', 'n', 'f'], seq!['I', 'N', 'F'])
    ||| matches_either_case(
        body,
        seq!['i', 'n', 'f', 'i', 'n', 'i', 't', 'y'],
        seq!['I', 'N', 'F', 'I', 'N', 'I', 'T', 'Y'],
    )
    ||| matches_either_case(body, seq!['n', 'a', 'n'], seq!['N', 'A', 'N'])
    ||| is_decimal_number(body)
}

/// The characters of `s`, in order.
pub fn chars_of(s: &str) -> (v: Vec<char>)
    ensures
        v@ == s@,
{
    let mut v: Vec<char> = Vec::new();
    let n = s.unicode_len();
    let mut i: usize = 0;
    while i < n
        invariant
            n == s@.len(),
            i <= n,
            v@ == s@.take(i as int),
        decreases n - i,
    {
        let c = s.get_char(i);
        v.push(c);
        i = i + 1;
        assert(v@ =~= s@.take(i as int));
    }
    assert(s@.take(n as int) =~= s@);
    v
}

/// Whether `c` is white space, as `char::is_whitespace` reports it.
pub fn white_space(c: char) -> (b: bool)
    ensures
        b == is_white_space(c),
{
    let n = c as u32;
    (0x9 <= n && n <= 0xD) || n == 0x20 || n == 0x85 || n == 0xA0 || n == 0x1680 || (0x2000 <= n
        && n <= 0x200A) || n == 0x2028 || n == 0x2029 || n == 0x202F || n == 0x205F || n == 0x3000
}

/// `s` without leading and trailing white space.
pub fn trim(s: &str) -> (r: String)
    ensures
        r@ == trim_spec(s@),
{
    let v = chars_of(s);
    let n = v.len();
    let mut start: usize = 0;
    assert(s@.skip(0) =~= s@);
    while start < n && white_space(v[start])
        invariant
            v@ == s@,
            n == v@.len(),
            start <= n,
            trim_start_spec(s@) == trim_start_spec(s@.skip(start as int)),
        decreases n - start,
    {
        assert(s@.skip(start as int).drop_first() =~= s@.skip(start + 1));
        start = start + 1;
    }
    assert(trim_start_spec(s@) == s@.skip(start as int)) by {
        assert(s@.skip(start as int) =~= s@.subrange(start as int, n as int));
    }
    let mut end: usize = n;
    assert(s@.skip(start as int) =~= s@.subrange(start as int, n as int));
    while end > start && white_space(v[end - 1])
        invariant
            v@ == s@,
            n == v@.len(),
            start <= end <= n,
            trim_end_spec(s@.skip(start as int)) == trim_end_spec(s@.subrange(start as int, end as int)),
        decreases end - start,
    {
        assert(s@.subrange(start as int, end as int).drop_last() =~= s@.subrange(
            start as int,
            end - 1,
        ));
        end = end - 1;
    }
    assert(s@.skip(start as int) =~= s@.subrange(start as int, n as int));
    let piece = s.substring_char(start, end);
    piece.to_owned()
}

/// Whether `s` is empty once white space is trimmed from it.
pub fn is_blank(s: &str) -> (b: bool)
    ensures
        b == (trim_spec(s@).len() == 0),
{
    let t = trim(s);
    t.as_str().unicode_len() == 0
}

/// `s` without the `'/'` characters that it ends with.
pub fn without_trailing_slashes(s: &str) -> (r: String)
    ensures
        r@ == trim_trailing_slashes(s@),
{
    let v = chars_of(s);
    let mut end: usize = v.len();
    assert(s@.take(end as int) =~= s@);
    while end > 0 && v[end - 1] == '/'
        invariant
            v@ == s@,
            end <= v@.len(),
            trim_trailing_slashes(s@) == trim_trailing_slashes(s@.take(end as int)),
        decreases end,
    {
        assert(s@.take(end as int).drop_last() =~= s@.take(end - 1));
        end = end - 1;
    }
    let piece = s.substring_char(0, end);
    assert(s@.subrange(0, end as int) =~= s@.take(end as int));
    piece.to_owned()
}

/// Whether `pattern` occurs in `s` at position `i`.
pub fn occurs_at(s: &Vec<char>, pattern: &Vec<char>, i: usize) -> (b: bool)
    requires
        i <= s@.len(),
    ensures
        b == pattern@.is_prefix_of(s@.skip(i as int)),
{
    let m = pattern.len();
    let total = s.len();
    if m > total - i {
        return false;
    }
    let mut k: usize = 0;
    while k < m
        invariant
            m == pattern@.len(),
            total == s@.len(),
            i + m <= total,
            k <= m,
            forall|j: int| 0 <= j < k ==> s@[i + j] == pattern@[j],
        decreases m - k,
    {
        if s[i + k] != pattern[k] {
            assert(s@.skip(i as int).subrange(0, m as int)[k as int] != pattern@[k as int]);
            return false;
        }
        k = k + 1;
    }
    assert(pattern@ =~= s@.skip(i as int).subrange(0, m as int));
    true
}

/// `s` with every occurrence of `from` replaced by `to`, as `str::replace` does it.
pub fn replace_all(s: &str, from: &str, to: &str) -> (r: String)
    requires
        from@.len() > 0,
    ensures
        r@ == replace_spec(s@, from@, to@),
{
    let sv = chars_of(s);
    let fv = chars_of(from);
    let n = sv.len();
    let m = fv.len();
    let mut out = String::new();
    let mut i: usize = 0;
    assert(s@.skip(0) =~= s@);
    assert(out@ + replace_spec(s@, from@, to@) =~= replace_spec(s@, from@, to@));
    while i < n
        invariant
            sv@ == s@,
            fv@ == from@,
            n == s@.len(),
            m == from@.len(),
            m > 0,
            i <= n,
            out@ + replace_spec(s@.skip(i as int), from@, to@) == replace_spec(s@, from@, to@),
        decreases n - i,
    {
        let ghost rest = s@.skip(i as int);
        let ghost old_out = out@;
        if occurs_at(&sv, &fv, i) {
            out.append(to);
            assert(rest.skip(m as int) =~= s@.skip(i + m));
            assert(replace_spec(rest, from@, to@) == to@ + replace_spec(
                s@.skip(i + m),
                from@,
                to@,
            ));
            assert(old_out + (to@ + replace_spec(s@.skip(i + m), from@, to@)) =~= (old_out + to@)
                + replace_spec(s@.skip(i + m), from@, to@));
            i = i + m;
        } else {
            let piece = s.substring_char(i, i + 1);
            out.append(piece);
            assert(piece@ =~= seq![rest[0]]);
            assert(rest.drop_first() =~= s@.skip(i + 1));
            assert(old_out + (seq![rest[0]] + replace_spec(s@.skip(i + 1), from@, to@)) =~= (
            old_out + seq![rest[0]]) + replace_spec(s@.skip(i + 1), from@, to@));
            i = i + 1;
        }
    }
    assert(s@.skip(n as int) =~= Seq::<char>::empty());
    assert(out@ + Seq::<char>::empty() =~= out@);
    out
}

/// The value of the digit `c`.
pub open spec fn digit_value(c: char) -> int {
    (c as int) - ('0' as int)
}

/// The number of ASCII digits that `v@.skip(i)` starts with, as an end position.
pub fn digit_run_end(v: &Vec<char>, i: usize) -> (j: usize)
    requires
        i <= v@.len(),
    ensures
        i <= j <= v@.len(),
        j - i == digit_run(v@.skip(i as int)),
        forall|k: int| i <= k < j ==> is_ascii_digit(#[trigger] v@[k]),
{
    let n = v.len();
    let mut k: usize = i;
    while k < n && '0' <= v[k] && v[k] <= '9'
        invariant
            n == v@.len(),
            i <= k <= n,
            digit_run(v@.skip(i as int)) == (k - i) + digit_run(v@.skip(k as int)),
            forall|q: int| i <= q < k ==> is_ascii_digit(#[trigger] v@[q]),
        decreases n - k,
    {
        assert(v@.skip(k as int).drop_first() =~= v@.skip(k + 1));
        k = k + 1;
    }
    if k == n {
        assert(v@.skip(k as int).len() == 0);
    }
    k
}

/// `digit_run(s) == s.len()` holds exactly when every character of `s` is a digit.
pub proof fn lemma_digit_run_full(s: Seq<char>)
    ensures
        digit_run(s) <= s.len(),
        (digit_run(s) == s.len()) <==> (forall|i: int| 0 <= i < s.len() ==> is_ascii_digit(#[trigger] s[i])),
    decreases s.len(),
{
    if s.len() > 0 {
        lemma_digit_run_full(s.drop_first());
        if is_ascii_digit(s[0]) {
            assert forall|i: int| 0 <= i < s.len() && (forall|j: int| 0 <= j < s.drop_first().len() ==> is_ascii_digit(#[trigger] s.drop_first()[j])) implies is_ascii_digit(s[i]) by {
                if i > 0 {
                    assert(s[i] == s.drop_first()[i - 1]);
                }
            }
            if forall|i: int| 0 <= i < s.len() ==> is_ascii_digit(#[trigger] s[i]) {
                assert forall|j: int| 0 <= j < s.drop_first().len() implies is_ascii_digit(#[trigger] s.drop_first()[j]) by {
                    assert(s.drop_first()[j] == s[j + 1]);
                }
            }
        }
    }
}

/// The value that `str::parse::<u64>` gives `s`, or `None` where it fails.
pub fn parse_u64(s: &str) -> (r: Option<u64>)
    ensures
        r == (match unsigned_literal_value(s@) {
            Some(v) => if v <= u64::MAX { Some(v as u64) } else { None },
            None => None,
        }),
{
    let v = chars_of(s);
    let n = v.len();
    let start: usize = if n > 0 && v[0] == '+' { 1 } else { 0 };
    let ghost d = s@.skip(start as int);
    assert(start == 1 ==> d =~= s@.drop_first());
    assert(start == 0 ==> d =~= s@);
    if start == n {
        return None;
    }
    let end = digit_run_end(&v, start);
    proof {
        lemma_digit_run_full(d);
    }
    if end < n {
        return None;
    }
    assert(forall|q: int| 0 <= q < d.len() ==> is_ascii_digit(#[trigger] d[q]) && d[q] == v@[q + start]);
    let mut value: u64 = 0;
    let mut overflow = false;
    let mut k: usize = start;
    assert(d.take(0) =~= Seq::<char>::empty());
    while k < n
        invariant
            v@ == s@,
            n == v@.len(),
            start <= k <= n,
            d == s@.skip(start as int),
            forall|q: int| start <= q < n ==> is_ascii_digit(#[trigger] v@[q]),
            !overflow ==> value == digits_value(d.take(k - start)),
            overflow ==> digits_value(d.take(k - start)) > u64::MAX,
        decreases n - k,
    {
        let c = v[k];
        let ghost prev = d.take(k - start);
        assert(d.take(k + 1 - start).drop_last() =~= prev);
        assert(d.take(k + 1 - start).last() == c);
        assert(digits_value(d.take(k + 1 - start)) == digits_value(prev) * 10 + digit_value(c));
        let digit = ((c as u32) - ('0' as u32)) as u64;
        if !overflow {
            match value.checked_mul(10) {
                Some(x) => match x.checked_add(digit) {
                    Some(y) => {
                        value = y;
                    },
                    None => {
                        overflow = true;
                    },
                },
                None => {
                    overflow = true;
                },
            }
        }
        k = k + 1;
    }
    assert(d.take(n - start) =~= d);
    if overflow {
        None
    } else {
        Some(value)
    }
}

/// The value that `str::parse::<u16>` gives `s`, or `None` where it fails.
pub fn parse_u16(s: &str) -> (r: Option<u16>)
    ensures
        r == (match unsigned_literal_value(s@) {
            Some(v) => if v <= u16::MAX { Some(v as u16) } else { None },
            None => None,
        }),
{
    match parse_u64(s) {
        Some(v) => if v <= 65535 { Some(v as u16) } else { None },
        None => None,
    }
}

/// Whether `v@.skip(i)` is an optional exponent.
fn optional_exponent_at(v: &Vec<char>, i: usize) -> (b: bool)
    requires
        i <= v@.len(),
    ensures
        b == is_optional_exponent(v@.skip(i as int)),
{
    let n = v.len();
    let ghost s = v@.skip(i as int);
    if i == n {
        return true;
    }
    if v[i] != 'e' && v[i] != 'E' {
        return false;
    }
    let ghost t = s.drop_first();
    assert(t =~= v@.skip(i + 1));
    let mut j: usize = i + 1;
    if j < n && (v[j] == '+' || v[j] == '-') {
        assert(t.drop_first() =~= v@.skip(i + 2));
        j = j + 1;
    }
    if j == n {
        return false;
    }
    let e = digit_run_end(v, j);
    proof {
        lemma_digit_run_full(v@.skip(j as int));
    }
    e == n
}

/// Whether `v@.skip(i)` is a decimal number in the float grammar.
fn decimal_number_at(v: &Vec<char>, i: usize) -> (b: bool)
    requires
        i <= v@.len(),
    ensures
        b == is_decimal_number(v@.skip(i as int)),
{
    let n = v.len();
    let ghost s = v@.skip(i as int);
    let a = digit_run_end(v, i);
    assert(s.skip((a - i) as int) =~= v@.skip(a as int));
    if a < n && v[a] == '.' {
        assert(v@.skip(a as int).drop_first() =~= v@.skip(a + 1));
        let b = digit_run_end(v, a + 1);
        assert(v@.skip(a + 1).skip((b - (a + 1)) as int) =~= v@.skip(b as int));
        (a - i) + (b - (a + 1)) > 0 && optional_exponent_at(v, b)
    } else {
        a - i > 0 && optional_exponent_at(v, a)
    }
}

/// Whether `v@.skip(i)` spells `lower` with each letter in either case.
fn word_at(v: &Vec<char>, i: usize, lower: &Vec<char>, upper: &Vec<char>) -> (b: bool)
    requires
        i <= v@.len(),
        lower@.len() == upper@.len(),
    ensures
        b == matches_either_case(v@.skip(i as int), lower@, upper@),
{
    let n = v.len();
    let m = lower.len();
    let ghost s = v@.skip(i as int);
    if n - i != m {
        return false;
    }
    let mut k: usize = 0;
    while k < m
        invariant
            n == v@.len(),
            m == lower@.len(),
            m == upper@.len(),
            i + m == n,
            s == v@.skip(i as int),
            k <= m,
            forall|q: int| 0 <= q < k ==> (s[q] == lower@[q] || s[q] == upper@[q]),
        decreases m - k,
    {
        if v[i + k] != lower[k] && v[i + k] != upper[k] {
            assert(s[k as int] == v@[i + k]);
            return false;
        }
        assert(s[k as int] == v@[i + k]);
        k = k + 1;
    }
    true
}

/// Whether `str::parse::<f64>` accepts `s`.
pub fn float_literal(s: &str) -> (b: bool)
    ensures
        b == is_float_literal(s@),
{
    let v = chars_of(s);
    let n = v.len();
    let start: usize = if n > 0 && (v[0] == '+' || v[0] == '-') { 1 } else { 0 };
    assert(start == 1 ==> v@.skip(1) =~= s@.drop_first());
    assert(start == 0 ==> v@.skip(0) =~= s@);
    let inf_lower = vec!['i', 'n', 'f'];
    let inf_upper = vec!['I', 'N', 'F'];
    let infinity_lower = vec!['i', 'n', 'f', 'i', 'n', 'i', 't', 'y'];
    let infinity_upper = vec!['I', 'N', 'F', 'I', 'N', 'I', 'T', 'Y'];
    let nan_lower = vec!['n', 'a', 'n'];
    let nan_upper = vec!['N', 'A', 'N'];
    assert(inf_lower@ =~= seq!['i', 'n', 'f']);
    assert(inf_upper@ =~= seq!['I', 'N', 'F']);
    assert(infinity_lower@ =~= seq!['i', 'n', 'f', 'i', 'n', 'i', 't', 'y']);
    assert(infinity_upper@ =~= seq!['I', 'N', 'F', 'I', 'N', 'I', 'T', 'Y']);
    assert(nan_lower@ =~= seq!['n', 'a', 'n']);
    assert(nan_upper@ =~= seq!['N', 'A', 'N']);
    word_at(&v, start, &inf_lower, &inf_upper) || word_at(&v, start, &infinity_lower, &infinity_upper)
        || word_at(&v, start, &nan_lower, &nan_upper) || decimal_number_at(&v, start)
}

/// Whether `a` and `b` hold the same characters.
pub fn str_eq(a: &str, b: &str) -> (r: bool)
    ensures
        r == (a@ == b@),
{
    let av = chars_of(a);
    let bv = chars_of(b);
    let n = av.len();
    if n != bv.len() {
        return false;
    }
    let mut k: usize = 0;
    while k < n
        invariant
            av@ == a@,
            bv@ == b@,
            n == a@.len(),
            n == b@.len(),
            k <= n,
            forall|q: int| 0 <= q < k ==> a@[q] == b@[q],
        decreases n - k,
    {
        if av[k] != bv[k] {
            return false;
        }
        k = k + 1;
    }
    assert(a@ =~= b@);
    true
}

/// The part of `s` between `prefix` and a final `suffix` character, where `s`
/// starts with `prefix` and, after it, ends with `suffix`.
pub open spec fn between_spec(s: Seq<char>, prefix: Seq<char>, suffix: char) -> Option<Seq<char>> {
    if prefix.is_prefix_of(s) && s.len() >= prefix.len() + 1 && s.last() == suffix {
        Some(s.subrange(prefix.len() as int, s.len() - 1))
    } else {
        None
    }
}

/// `s` with `prefix` stripped from its start and `suffix` from its end
/// (`strip_prefix`, then `strip_suffix`), where both are there.
pub fn strip_between(s: &str, prefix: &str, suffix: char) -> (r: Option<String>)
    ensures
        match r {
            Some(v) => between_spec(s@, prefix@, suffix) == Some(v@),
            None => between_spec(s@, prefix@, suffix) is None,
        },
{
    let sv = chars_of(s);
    let pv = chars_of(prefix);
    let n = sv.len();
    let m = pv.len();
    assert(s@.skip(0) =~= s@);
    if !occurs_at(&sv, &pv, 0) {
        return None;
    }
    if n <= m || sv[n - 1] != suffix {
        return None;
    }
    let inner = s.substring_char(m, n - 1);
    Some(inner.to_owned())
}

/// Replacing a pattern that does not occur leaves the text as it is.
pub proof fn lemma_replace_absent(s: Seq<char>, from: Seq<char>, to: Seq<char>)
    requires
        from.len() > 0,
        !contains_seq(s, from),
    ensures
        replace_spec(s, from, to) == s,
    decreases s.len(),
{
    if s.len() > 0 {
        if from.is_prefix_of(s) {
            assert(s.subrange(0, 0 + from.len() as int) == from);
        }
        assert(!contains_seq(s.drop_first(), from)) by {
            if contains_seq(s.drop_first(), from) {
                let i = choose|i: int|
                    0 <= i <= s.drop_first().len() - from.len() && #[trigger] s.drop_first().subrange(
                        i,
                        i + from.len(),
                    ) == from;
                assert(s.subrange(i + 1, i + 1 + from.len()) =~= s.drop_first().subrange(
                    i,
                    i + from.len(),
                ));
            }
        }
        lemma_replace_absent(s.drop_first(), from, to);
        assert(seq![s[0]] + s.drop_first() =~= s);
    }
}

/// Text in which the pattern's first character does not occur passes through
/// a replacement unchanged, whatever follows it.
pub proof fn lemma_replace_skips_prefix(p: Seq<char>, r: Seq<char>, from: Seq<char>, to: Seq<char>)
    requires
        from.len() > 0,
        forall|i: int| 0 <= i < p.len() ==> p[i] != from[0],
    ensures
        replace_spec(p + r, from, to) == p + replace_spec(r, from, to),
    decreases p.len(),
{
    if p.len() == 0 {
        assert(p + r =~= r);
        assert(p + replace_spec(r, from, to) =~= replace_spec(r, from, to));
    } else {
        let s = p + r;
        assert(s[0] == p[0]);
        if from.is_prefix_of(s) {
            assert(s.subrange(0, from.len() as int)[0] == from[0]);
        }
        assert(s.drop_first() =~= p.drop_first() + r);
        lemma_replace_skips_prefix(p.drop_first(), r, from, to);
        assert(seq![p[0]] + (p.drop_first() + replace_spec(r, from, to)) =~= p + replace_spec(
            r,
            from,
            to,
        ));
    }
}

/// An occurrence of the pattern at the start is replaced.
pub proof fn lemma_replace_at_start(from: Seq<char>, r: Seq<char>, to: Seq<char>)
    requires
        from.len() > 0,
    ensures
        replace_spec(from + r, from, to) == to + replace_spec(r, from, to),
{
    let s = from + r;
    assert(from.is_prefix_of(s)) by {
        assert(s.subrange(0, from.len() as int) =~= from);
    }
    assert(s.skip(from.len() as int) =~= r);
}

/// Stripping the trailing slashes twice is stripping them once, and what is
/// left does not end with a slash.
pub proof fn lemma_trailing_slashes_idempotent(s: Seq<char>)
    ensures
        trim_trailing_slashes(trim_trailing_slashes(s)) == trim_trailing_slashes(s),
        trim_trailing_slashes(s).len() > 0 ==> trim_trailing_slashes(s).last() != '/',
    decreases s.len(),
{
    if s.len() > 0 && s.last() == '/' {
        lemma_trailing_slashes_idempotent(s.drop_last());
    }
}

/// A slash added at the end makes no difference once trailing slashes are stripped.
pub proof fn lemma_trailing_slash_ignored(s: Seq<char>)
    ensures
        trim_trailing_slashes(s.push('/')) == trim_trailing_slashes(s),
{
    assert(s.push('/').drop_last() =~= s);
}

/// A run of digits followed by any text: the run is counted, and what follows
/// it is what remains after it.
pub proof fn lemma_digit_run_prefix(a: Seq<char>, rest: Seq<char>)
    requires
        forall|i: int| 0 <= i < a.len() ==> is_ascii_digit(#[trigger] a[i]),
    ensures
        digit_run(a + rest) == a.len() + digit_run(rest),
        (a + rest).skip(a.len() as int) == rest,
    decreases a.len(),
{
    if a.len() > 0 {
        assert((a + rest).drop_first() =~= a.drop_first() + rest);
        assert((a + rest)[0] == a[0]);
        assert forall|i: int| 0 <= i < a.drop_first().len() implies is_ascii_digit(
            #[trigger] a.drop_first()[i],
        ) by {
            assert(a.drop_first()[i] == a[i + 1]);
        }
        lemma_digit_run_prefix(a.drop_first(), rest);
    } else {
        assert(a + rest =~= rest);
    }
    assert((a + rest).skip(a.len() as int) =~= rest);
}

/// Every non-empty run of ASCII digits is a number that `f64` parsing accepts,
/// with or without a sign; so are digits around a point, with at least one
/// digit, and digits with an exponent.
pub proof fn lemma_digit_runs_are_float_literals(a: Seq<char>, b: Seq<char>, e: Seq<char>)
    requires
        forall|i: int| 0 <= i < a.len() ==> is_ascii_digit(#[trigger] a[i]),
        forall|i: int| 0 <= i < b.len() ==> is_ascii_digit(#[trigger] b[i]),
        forall|i: int| 0 <= i < e.len() ==> is_ascii_digit(#[trigger] e[i]),
    ensures
        a.len() > 0 ==> is_float_literal(a),
        a.len() > 0 ==> is_float_literal(seq!['-'] + a),
        a.len() > 0 ==> is_float_literal(seq!['+'] + a),
        a.len() + b.len() > 0 ==> is_float_literal(a + seq!['.'] + b),
        a.len() > 0 && e.len() > 0 ==> is_float_literal(a + seq!['e'] + e),
        a.len() > 0 && e.len() > 0 ==> is_float_literal(a + seq!['E', '-'] + e),
{
    let empty = Seq::<char>::empty();
    lemma_digit_run_full(b);
    lemma_digit_run_full(e);
    assert(is_optional_exponent(empty));
    // digits alone
    lemma_digit_run_prefix(a, empty);
    assert(a + empty =~= a);
    if a.len() > 0 {
        assert(is_decimal_number(a));
        assert(!(a[0] == '+' || a[0] == '-'));
        assert(seq!['-'].add(a).drop_first() =~= a);
        assert(seq!['+'].add(a).drop_first() =~= a);
    }
    // digits, a point, digits
    let p = seq!['.'] + b;
    assert(a + seq!['.'] + b =~= a + p);
    assert(digit_run(p) == 0);
    lemma_digit_run_prefix(a, p);
    assert(p.drop_first() =~= b);
    lemma_digit_run_prefix(b, empty);
    assert(b + empty =~= b);
    assert(b.skip(b.len() as int) =~= empty);
    if a.len() + b.len() > 0 {
        assert(is_decimal_number(a + p));
        assert((a + p)[0] == if a.len() > 0 { a[0] } else { '.' });
    }
    // digits and an exponent
    let x = seq!['e'] + e;
    assert(a + seq!['e'] + e =~= a + x);
    assert(digit_run(x) == 0);
    lemma_digit_run_prefix(a, x);
    assert(x.drop_first() =~= e);
    let y = seq!['E', '-'] + e;
    assert(a + seq!['E', '-'] + e =~= a + y);
    assert(digit_run(y) == 0);
    lemma_digit_run_prefix(a, y);
    assert(y.drop_first().drop_first() =~= e);
    if a.len() > 0 && e.len() > 0 {
        assert(!(e[0] == '+' || e[0] == '-'));
        assert(is_optional_exponent(x));
        assert(is_decimal_number(a + x));
        assert((a + x)[0] == a[0]);
        assert(y.drop_first()[0] == '-');
        assert(is_optional_exponent(y));
        assert(is_decimal_number(a + y));
        assert((a + y)[0] == a[0]);
    }
}

/// The digit that stands for `d`, where `d` is below ten.
pub open spec fn digit_char(d: nat) -> char {
    if d == 0 {
        '0'
    } else if d == 1 {
        '1'
    } else if d == 2 {
        '2'
    } else if d == 3 {
        '3'
    } else if d == 4 {
        '4'
    } else if d == 5 {
        '5'
    } else if d == 6 {
        '6'
    } else if d == 7 {
        '7'
    } else if d == 8 {
        '8'
    } else {
        '9'
    }
}

/// The decimal form of `n`, without leading zeros, as `n.to_string()` writes it.
pub open spec fn decimal_text(n: nat) -> Seq<char>
    decreases n,
{
    if n < 10 {
        seq![digit_char(n)]
    } else {
        decimal_text(n / 10).push(digit_char(n % 10))
    }
}

proof fn lemma_digit_char(d: nat)
    requires
        d < 10,
    ensures
        is_ascii_digit(digit_char(d)),
        digit_value(digit_char(d)) == d,
        !is_white_space(digit_char(d)),
        digit_char(d) != '+',
{
}

/// The decimal form of a number is a non-empty run of digits, with no white
/// space at either end, that reads back as that number, with or without a
/// leading `'+'`.
pub proof fn lemma_decimal_text_reads_back(n: nat)
    ensures
        decimal_text(n).len() > 0,
        forall|i: int| 0 <= i < decimal_text(n).len() ==> is_ascii_digit(#[trigger] decimal_text(n)[i]),
        digits_value(decimal_text(n)) == n,
        unsigned_literal_value(decimal_text(n)) == Some(n),
        unsigned_literal_value(seq!['+'] + decimal_text(n)) == Some(n),
        trim_spec(decimal_text(n)) == decimal_text(n),
    decreases n,
{
    let s = decimal_text(n);
    if n < 10 {
        lemma_digit_char(n);
        assert(s.drop_last() =~= Seq::<char>::empty());
        assert(digits_value(Seq::<char>::empty()) == 0);
    } else {
        let t = decimal_text(n / 10);
        lemma_decimal_text_reads_back(n / 10);
        lemma_digit_char(n % 10);
        assert(s.drop_last() =~= t);
        assert(s.last() == digit_char(n % 10));
        assert forall|i: int| 0 <= i < s.len() implies is_ascii_digit(#[trigger] s[i]) by {
            if i < t.len() {
                assert(s[i] == t[i]);
            }
        }
        assert(digits_value(s) == (n / 10) * 10 + n % 10);
        assert(s[0] == t[0]);
    }
    lemma_digit_run_full(s);
    assert(is_ascii_digit(s[0]));
    assert(is_ascii_digit(s.last()));
    assert(!is_white_space(s[0])) by {
        assert(s[0] == '0' || s[0] == '1' || s[0] == '2' || s[0] == '3' || s[0] == '4' || s[0] == '5'
            || s[0] == '6' || s[0] == '7' || s[0] == '8' || s[0] == '9');
    }
    assert(!is_white_space(s.last())) by {
        let c = s.last();
        assert(c == '0' || c == '1' || c == '2' || c == '3' || c == '4' || c == '5' || c == '6' || c
            == '7' || c == '8' || c == '9');
    }
    assert(trim_start_spec(s) == s);
    assert(trim_end_spec(s) == s);
    assert((seq!['+'] + s).drop_first() =~= s);
    assert((seq!['+'] + s)[0] == '+');
}

proof fn lemma_trim_start_white(w: Seq<char>, x: Seq<char>)
    requires
        forall|i: int| 0 <= i < w.len() ==> is_white_space(#[trigger] w[i]),
    ensures
        trim_start_spec(w + x) == trim_start_spec(x),
    decreases w.len(),
{
    if w.len() == 0 {
        assert(w + x =~= x);
    } else {
        assert((w + x)[0] == w[0]);
        assert((w + x).drop_first() =~= w.drop_first() + x);
        assert forall|i: int| 0 <= i < w.drop_first().len() implies is_white_space(
            #[trigger] w.drop_first()[i],
        ) by {
            assert(w.drop_first()[i] == w[i + 1]);
        }
        lemma_trim_start_white(w.drop_first(), x);
    }
}

proof fn lemma_trim_end_white(y: Seq<char>, w: Seq<char>)
    requires
        forall|i: int| 0 <= i < w.len() ==> is_white_space(#[trigger] w[i]),
    ensures
        trim_end_spec(y + w) == trim_end_spec(y),
    decreases w.len(),
{
    if w.len() == 0 {
        assert(y + w =~= y);
    } else {
        assert((y + w).last() == w[w.len() - 1]);
        assert((y + w).drop_last() =~= y + w.drop_last());
        assert forall|i: int| 0 <= i < w.drop_last().len() implies is_white_space(
            #[trigger] w.drop_last()[i],
        ) by {
            assert(w.drop_last()[i] == w[i]);
        }
        lemma_trim_end_white(y, w.drop_last());
    }
}

/// Trimming removes exactly the white space around a text: text that neither
/// starts nor ends with white space, with any white space before and after it,
/// trims to itself.
pub proof fn lemma_trim_removes_surrounding_white_space(w1: Seq<char>, s: Seq<char>, w2: Seq<char>)
    requires
        forall|i: int| 0 <= i < w1.len() ==> is_white_space(#[trigger] w1[i]),
        forall|i: int| 0 <= i < w2.len() ==> is_white_space(#[trigger] w2[i]),
        s.len() > 0 ==> !is_white_space(s[0]) && !is_white_space(s.last()),
    ensures
        trim_spec(w1 + s + w2) == s,
{
    lemma_trim_start_white(w1, s + w2);
    assert(w1 + s + w2 =~= w1 + (s + w2));
    let empty = Seq::<char>::empty();
    if s.len() > 0 {
        assert((s + w2)[0] == s[0]);
        assert(trim_start_spec(s + w2) == s + w2);
        lemma_trim_end_white(s, w2);
    } else {
        assert(s + w2 =~= w2 + empty);
        lemma_trim_start_white(w2, empty);
        assert(trim_start_spec(empty) == empty);
        assert(trim_end_spec(empty) == empty);
    }
}

proof fn lemma_trim_start_keeps(s: Seq<char>, i: int)
    requires
        0 <= i < s.len(),
        !is_white_space(s[i]),
    ensures
        exists|k: int| 0 <= k < trim_start_spec(s).len() && !is_white_space(#[trigger] trim_start_spec(s)[k]),
    decreases s.len(),
{
    if is_white_space(s[0]) {
        assert(s.drop_first()[i - 1] == s[i]);
        lemma_trim_start_keeps(s.drop_first(), i - 1);
        assert(trim_start_spec(s) == trim_start_spec(s.drop_first()));
        let t = trim_start_spec(s);
        let k = choose|k: int| 0 <= k < t.len() && !is_white_space(#[trigger] t[k]);
        assert(!is_white_space(t[k]));
    } else {
        assert(trim_start_spec(s)[i] == s[i]);
    }
}

proof fn lemma_trim_end_keeps(s: Seq<char>, i: int)
    requires
        0 <= i < s.len(),
        !is_white_space(s[i]),
    ensures
        trim_end_spec(s).len() > 0,
    decreases s.len(),
{
    if is_white_space(s.last()) {
        assert(s.drop_last()[i] == s[i]);
        lemma_trim_end_keeps(s.drop_last(), i);
    }
}

/// Text is blank, trimming to nothing, exactly when all of it is white space.
pub proof fn lemma_blank_iff_all_white_space(s: Seq<char>)
    ensures
        trim_spec(s).len() == 0 <==> (forall|i: int| 0 <= i < s.len() ==> is_white_space(#[trigger] s[i])),
{
    if forall|i: int| 0 <= i < s.len() ==> is_white_space(#[trigger] s[i]) {
        let empty = Seq::<char>::empty();
        lemma_trim_removes_surrounding_white_space(s, empty, empty);
        assert(s + empty + empty =~= s);
    } else {
        let i = choose|i: int| 0 <= i < s.len() && !is_white_space(#[trigger] s[i]);
        lemma_trim_start_keeps(s, i);
        let t = trim_start_spec(s);
        let k = choose|k: int| 0 <= k < t.len() && !is_white_space(#[trigger] t[k]);
        lemma_trim_end_keeps(t, k);
    }
}

} // verus!
