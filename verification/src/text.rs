//! Character-level text utilities: locating and splitting on separator
//! characters, trimming, decimal formatting and parsing.
use vstd::prelude::*;
use vstd::string::StrSliceExecFns;
use vstd::string::StringExecFns;

verus! {

// ---------------------------------------------------------------------------
// Finding and splitting on a separator character
// ---------------------------------------------------------------------------

/// Index of the first occurrence of `sep` in `s`, or -1 if absent.
pub open spec fn find_ch(s: Seq<char>, sep: char) -> int
    decreases s.len(),
{
    if s.len() == 0 {
        -1
    } else if s[0] == sep {
        0
    } else {
        let r = find_ch(s.drop_first(), sep);
        if r < 0 {
            -1
        } else {
            r + 1
        }
    }
}

/// `s` contains no occurrence of `sep`.
pub open spec fn sep_free(s: Seq<char>, sep: char) -> bool {
    forall|i: int| 0 <= i < s.len() ==> s[i] != sep
}

/// `s` split at every occurrence of `sep`; empty pieces are kept, and the
/// result always has one more piece than `s` has separators.
pub open spec fn split_ch(s: Seq<char>, sep: char) -> Seq<Seq<char>>
    decreases s.len(),
{
    let i = find_ch(s, sep);
    if !(0 <= i < s.len()) {
        seq![s]
    } else {
        seq![s.take(i)] + split_ch(s.skip(i + 1), sep)
    }
}

pub proof fn lemma_find_ch_props(s: Seq<char>, sep: char)
    ensures
        find_ch(s, sep) == -1 ==> sep_free(s, sep),
        find_ch(s, sep) != -1 ==> 0 <= find_ch(s, sep) < s.len(),
        find_ch(s, sep) != -1 ==> s[find_ch(s, sep)] == sep,
        find_ch(s, sep) != -1 ==> (forall|j: int| 0 <= j < find_ch(s, sep) ==> s[j] != sep),
    decreases s.len(),
{
    if s.len() == 0 {
    } else if s[0] == sep {
    } else {
        lemma_find_ch_props(s.drop_first(), sep);
        let r = find_ch(s.drop_first(), sep);
        if r < 0 {
            assert forall|i: int| 0 <= i < s.len() implies s[i] != sep by {
                if i > 0 {
                    assert(s.drop_first()[i - 1] != sep);
                }
            }
        } else {
            assert forall|j: int| 0 <= j < r + 1 implies s[j] != sep by {
                if j > 0 {
                    assert(s.drop_first()[j - 1] != sep);
                }
            }
        }
    }
}

/// If `sep` occurs at `i` and nowhere earlier, then `i` is where it is found.
pub proof fn lemma_find_ch_at(s: Seq<char>, sep: char, i: int)
    requires
        0 <= i < s.len(),
        s[i] == sep,
        forall|j: int| 0 <= j < i ==> s[j] != sep,
    ensures
        find_ch(s, sep) == i,
{
    lemma_find_ch_props(s, sep);
    let f = find_ch(s, sep);
    if f == -1 {
        assert(s[i] != sep);
    } else if f < i {
        assert(s[f] != sep);
    } else if f > i {
        assert(s[i] != sep);
    }
}

/// Splitting a separator-free sequence yields that sequence alone.
pub proof fn lemma_split_sepfree(s: Seq<char>, sep: char)
    requires
        sep_free(s, sep),
    ensures
        split_ch(s, sep) == seq![s],
{
    lemma_find_ch_props(s, sep);
    if find_ch(s, sep) >= 0 {
        assert(s[find_ch(s, sep)] != sep);
    }
}

/// Splitting a sequence that starts with a separator-free piece, then a
/// separator, peels off exactly that piece.
pub proof fn lemma_split_prefix(t: Seq<char>, rest: Seq<char>, sep: char)
    requires
        sep_free(t, sep),
    ensures
        split_ch(t + seq![sep] + rest, sep) == seq![t] + split_ch(rest, sep),
{
    let s = t + seq![sep] + rest;
    assert(s[t.len() as int] == sep);
    assert forall|j: int| 0 <= j < t.len() implies s[j] != sep by {
        assert(s[j] == t[j]);
    }
    lemma_find_ch_at(s, sep, t.len() as int);
    assert(s.take(t.len() as int) =~= t);
    assert(s.skip(t.len() as int + 1) =~= rest);
}

/// `parts` joined with a single `sep` between adjacent pieces.
pub open spec fn join_ch(parts: Seq<Seq<char>>, sep: char) -> Seq<char>
    decreases parts.len(),
{
    if parts.len() == 0 {
        Seq::<char>::empty()
    } else if parts.len() == 1 {
        parts[0]
    } else {
        parts[0] + seq![sep] + join_ch(parts.drop_first(), sep)
    }
}

/// Splitting a join of separator-free pieces recovers the pieces.
pub proof fn lemma_split_join(parts: Seq<Seq<char>>, sep: char)
    requires
        parts.len() > 0,
        forall|i: int| 0 <= i < parts.len() ==> sep_free(#[trigger] parts[i], sep),
    ensures
        split_ch(join_ch(parts, sep), sep) == parts,
    decreases parts.len(),
{
    if parts.len() == 1 {
        lemma_split_sepfree(parts[0], sep);
        assert(seq![parts[0]] =~= parts);
    } else {
        lemma_split_prefix(parts[0], join_ch(parts.drop_first(), sep), sep);
        lemma_split_join(parts.drop_first(), sep);
        assert(seq![parts[0]] + parts.drop_first() =~= parts);
    }
}

// ---------------------------------------------------------------------------
// Lines and tokens
// ---------------------------------------------------------------------------

/// The lines of `s`: pieces between newline characters, with a final line
/// ending being optional (a trailing empty piece is dropped).
pub open spec fn lines_of(s: Seq<char>) -> Seq<Seq<char>> {
    let parts = split_ch(s, '\n');
    if parts.len() > 0 && parts.last().len() == 0 {
        parts.drop_last()
    } else {
        parts
    }
}

/// The space-separated tokens of a line; adjacent separators yield empty
/// tokens, as the formats here never double their separators.
pub open spec fn tokens_of(s: Seq<char>) -> Seq<Seq<char>> {
    split_ch(s, ' ')
}

/// The `n`-th space-separated token of `s`, if it has that many.
pub open spec fn tok_at(s: Seq<char>, n: int) -> Option<Seq<char>> {
    let t = tokens_of(s);
    if 0 <= n < t.len() {
        Some(t[n])
    } else {
        None
    }
}

// ---------------------------------------------------------------------------
// Whitespace trimming
// ---------------------------------------------------------------------------

/// The whitespace characters the line formats may carry around their content.
pub open spec fn is_space(c: char) -> bool {
    c == ' ' || c == '\t' || c == '\r'
}

pub open spec fn trim_front(s: Seq<char>) -> Seq<char>
    decreases s.len(),
{
    if s.len() > 0 && is_space(s[0]) {
        trim_front(s.drop_first())
    } else {
        s
    }
}

pub open spec fn trim_back(s: Seq<char>) -> Seq<char>
    decreases s.len(),
{
    if s.len() > 0 && is_space(s.last()) {
        trim_back(s.drop_last())
    } else {
        s
    }
}

/// `s` with leading and trailing whitespace removed.
pub open spec fn trim_spec(s: Seq<char>) -> Seq<char> {
    trim_back(trim_front(s))
}

proof fn lemma_trim_front_skip(s: Seq<char>, a: int)
    requires
        0 <= a <= s.len(),
        forall|j: int| 0 <= j < a ==> is_space(s[j]),
        a == s.len() || !is_space(s[a]),
    ensures
        trim_front(s) == s.skip(a),
    decreases a,
{
    if a == 0 {
        assert(s.skip(0) =~= s);
    } else {
        assert(is_space(s[0]));
        lemma_trim_front_skip(s.drop_first(), a - 1);
        assert(s.drop_first().skip(a - 1) =~= s.skip(a));
    }
}

proof fn lemma_trim_back_take(s: Seq<char>, b: int)
    requires
        0 <= b <= s.len(),
        forall|j: int| b <= j < s.len() ==> is_space(s[j]),
        b == 0 || !is_space(s[b - 1]),
    ensures
        trim_back(s) == s.take(b),
    decreases s.len(),
{
    if b == s.len() {
        assert(s.take(b) =~= s);
        if s.len() > 0 {
            assert(!is_space(s.last()));
        }
    } else {
        assert(is_space(s.last()));
        lemma_trim_back_take(s.drop_last(), b);
        assert(s.drop_last().take(b) =~= s.take(b));
    }
}

// ---------------------------------------------------------------------------
// Decimal digits
// ---------------------------------------------------------------------------

pub open spec fn is_digit(c: char) -> bool {
    48 <= c as u32 && c as u32 <= 57
}

/// Numeric value of a digit character.
pub open spec fn digit_of(c: char) -> nat {
    (c as u32 - 48) as nat
}

/// The digit character for a value below ten.
pub open spec fn digit_char(d: nat) -> char {
    if d == 0 {
        '0'
    } else if d == 1 {
        '1'
    } else if d == 2 {
        '2'
    } else if d == 3 {
        '3'
    } else if d == 4 {
        '4'
    } else if d == 5 {
        '5'
    } else if d == 6 {
        '6'
    } else if d == 7 {
        '7'
    } else if d == 8 {
        '8'
    } else {
        '9'
    }
}

/// The decimal rendering of `n`, most significant digit first, no sign and no
/// leading zero except for zero itself.
pub open spec fn dec_digits(n: nat) -> Seq<char>
    decreases n,
{
    if n < 10 {
        seq![digit_char(n)]
    } else {
        dec_digits(n / 10).push(digit_char(n % 10))
    }
}

pub open spec fn all_digits(s: Seq<char>) -> bool {
    forall|i: int| 0 <= i < s.len() ==> is_digit(#[trigger] s[i])
}

/// The numeric value of a digit string, most significant digit first.
pub open spec fn digits_val(s: Seq<char>) -> nat
    decreases s.len(),
{
    if s.len() == 0 {
        0
    } else {
        digits_val(s.drop_last()) * 10 + digit_of(s.last())
    }
}

/// What parsing an unsigned decimal token yields: the token must be non-empty,
/// all digits, and its value must fit the machine word.
pub open spec fn spec_parse_usize(s: Seq<char>) -> Option<usize> {
    if s.len() > 0 && all_digits(s) && digits_val(s) <= usize::MAX {
        Some(digits_val(s) as usize)
    } else {
        None
    }
}

/// A decimal rendering consists of digits and recovers its value.
pub proof fn lemma_dec_digits(n: nat)
    ensures
        dec_digits(n).len() >= 1,
        all_digits(dec_digits(n)),
        digits_val(dec_digits(n)) == n,
    decreases n,
{
    if n < 10 {
        assert('0' as u32 == 48 && '1' as u32 == 49 && '2' as u32 == 50 && '3' as u32 == 51
            && '4' as u32 == 52 && '5' as u32 == 53 && '6' as u32 == 54 && '7' as u32 == 55
            && '8' as u32 == 56 && '9' as u32 == 57);
        assert(is_digit(digit_char(n)));
        assert(digits_val(Seq::<char>::empty()) == 0);
        assert(dec_digits(n).drop_last() =~= Seq::<char>::empty());
        assert(dec_digits(n).last() == digit_char(n));
        assert(digits_val(dec_digits(n)) == digits_val(dec_digits(n).drop_last()) * 10 + digit_of(
            dec_digits(n).last(),
        ));
        assert(digit_of(digit_char(n)) == n);
    } else {
        lemma_dec_digits(n / 10);
        let d = dec_digits(n / 10);
        let whole = d.push(digit_char(n % 10));
        assert(whole.drop_last() =~= d);
        assert(whole.last() == digit_char(n % 10));
        assert(digit_of(digit_char(n % 10)) == n % 10);
        assert forall|i: int| 0 <= i < whole.len() implies is_digit(#[trigger] whole[i]) by {
            if i < d.len() {
                assert(whole[i] == d[i]);
            } else {
                assert(is_digit(digit_char(n % 10)));
            }
        }
        assert(digits_val(whole) == (n / 10) * 10 + n % 10);
        assert((n / 10) * 10 + n % 10 == n) by (nonlinear_arith);
    }
}

/// Concatenation preserves separator-freeness.
pub proof fn lemma_sep_free_app(a: Seq<char>, b: Seq<char>, sep: char)
    requires
        sep_free(a, sep),
        sep_free(b, sep),
    ensures
        sep_free(a + b, sep),
{
    assert forall|i: int| 0 <= i < (a + b).len() implies (a + b)[i] != sep by {
        if i < a.len() {
            assert((a + b)[i] == a[i]);
        } else {
            assert((a + b)[i] == b[i - a.len()]);
        }
    }
}

/// Parsing a decimal rendering recovers the value.
pub proof fn lemma_parse_of_dec(n: nat)
    requires
        n <= usize::MAX,
    ensures
        spec_parse_usize(dec_digits(n)) == Some(n as usize),
{
    lemma_dec_digits(n);
}

proof fn lemma_digits_val_extend(s: Seq<char>, i: int)
    requires
        0 <= i < s.len(),
    ensures
        digits_val(s.take(i + 1)) == digits_val(s.take(i)) * 10 + digit_of(s[i]),
{
    assert(s.take(i + 1).drop_last() =~= s.take(i));
    assert(s.take(i + 1).last() == s[i]);
}

proof fn lemma_digits_val_mono(s: Seq<char>, i: int)
    requires
        0 <= i <= s.len(),
    ensures
        digits_val(s) >= digits_val(s.take(i)),
    decreases s.len() - i,
{
    if i == s.len() {
        assert(s.take(i) =~= s);
    } else {
        lemma_digits_val_extend(s, i);
        lemma_digits_val_mono(s, i + 1);
        assert(digits_val(s.take(i + 1)) >= digits_val(s.take(i))) by (nonlinear_arith)
            requires
                digits_val(s.take(i + 1)) == digits_val(s.take(i)) * 10 + digit_of(s[i]),
        ;
    }
}

// ---------------------------------------------------------------------------
// Executable counterparts
// ---------------------------------------------------------------------------

/// Finds the first occurrence of `sep` in `s`.
pub fn find_in_str(s: &str, sep: char) -> (r: Option<usize>)
    ensures
        match r {
            Some(i) => i < s@.len() && find_ch(s@, sep) == i,
            None => find_ch(s@, sep) == -1,
        },
{
    let n = s.unicode_len();
    let mut i: usize = 0;
    while i < n
        invariant
            n == s@.len(),
            i <= n,
            forall|j: int| 0 <= j < i ==> s@[j] != sep,
        decreases n - i,
    {
        if s.get_char(i) == sep {
            proof {
                lemma_find_ch_at(s@, sep, i as int);
            }
            return Some(i);
        }
        i = i + 1;
    }
    proof {
        lemma_find_ch_props(s@, sep);
        if find_ch(s@, sep) >= 0 {
            assert(s@[find_ch(s@, sep)] != sep);
        }
    }
    None
}

/// Whether two string slices hold the same characters.
pub fn str_eq_str(a: &str, b: &str) -> (r: bool)
    ensures
        r == (a@ == b@),
{
    let na = a.unicode_len();
    let nb = b.unicode_len();
    if na != nb {
        return false;
    }
    let mut i: usize = 0;
    while i < na
        invariant
            na == a@.len(),
            na == b@.len(),
            i <= na,
            forall|j: int| 0 <= j < i ==> a@[j] == b@[j],
        decreases na - i,
    {
        if a.get_char(i) != b.get_char(i) {
            return false;
        }
        i = i + 1;
    }
    proof {
        assert(a@ =~= b@);
    }
    true
}

/// Whether `s` begins with the characters of `p`.
pub open spec fn spec_starts_with(s: Seq<char>, p: Seq<char>) -> bool {
    p.len() <= s.len() && s.take(p.len() as int) == p
}

pub fn starts_with_str(s: &str, p: &str) -> (r: bool)
    ensures
        r == spec_starts_with(s@, p@),
{
    let np = p.unicode_len();
    let ns = s.unicode_len();
    if np > ns {
        proof {
            assert(!spec_starts_with(s@, p@));
        }
        return false;
    }
    let mut i: usize = 0;
    while i < np
        invariant
            np == p@.len(),
            ns == s@.len(),
            np <= ns,
            i <= np,
            forall|j: int| 0 <= j < i ==> s@[j] == p@[j],
        decreases np - i,
    {
        if s.get_char(i) != p.get_char(i) {
            proof {
                assert(s@.take(p@.len() as int)[i as int] != p@[i as int]);
            }
            return false;
        }
        i = i + 1;
    }
    proof {
        assert(s@.take(p@.len() as int) =~= p@);
    }
    true
}

/// Splits `s` into its lines, the final line ending being optional.
pub fn split_lines<'a>(s: &'a str) -> (r: Vec<&'a str>)
    ensures
        r.deep_view() == lines_of(s@),
{
    let mut parts: Vec<&'a str> = Vec::new();
    let mut rest: &'a str = s;
    loop
        invariant
            split_ch(s@, '\n') == parts.deep_view() + split_ch(rest@, '\n'),
        ensures
            split_ch(s@, '\n') == parts.deep_view() + split_ch(rest@, '\n'),
            find_ch(rest@, '\n') == -1,
        decreases rest@.len(),
    {
        match find_in_str(rest, '\n') {
            Some(i) => {
                let rn = rest.unicode_len();
                let line = rest.substring_char(0, i);
                let next = rest.substring_char(i + 1, rn);
                proof {
                    lemma_find_ch_props(rest@, '\n');
                    assert(split_ch(rest@, '\n') == seq![rest@.take(i as int)] + split_ch(
                        rest@.skip(i + 1),
                        '\n',
                    ));
                    assert(rest@.take(i as int) == rest@.subrange(0, i as int));
                    assert(rest@.skip(i + 1) =~= rest@.subrange(i + 1, rest@.len() as int));
                    assert(parts.deep_view().push(line@) =~= parts.deep_view() + seq![line@]);
                    assert((parts.deep_view() + seq![rest@.take(i as int)]) + split_ch(
                        next@,
                        '\n',
                    ) =~= parts.deep_view() + split_ch(rest@, '\n'));
                }
                let ghost old_dv = parts.deep_view();
                parts.push(line);
                proof {
                    assert(parts.deep_view() =~= old_dv.push(line@));
                }
                rest = next;
            },
            None => {
                break;
            },
        }
    }
    proof {
        lemma_find_ch_props(rest@, '\n');
        lemma_split_sepfree(rest@, '\n');
    }
    let ghost old_dv = parts.deep_view();
    parts.push(rest);
    proof {
        assert(parts.deep_view() =~= old_dv.push(rest@));
        assert(parts.deep_view() =~= split_ch(s@, '\n'));
    }
    let last_len = parts[parts.len() - 1].unicode_len();
    if last_len == 0 {
        let ghost before_pop = parts.deep_view();
        let _ = parts.pop();
        proof {
            assert(parts.deep_view() =~= before_pop.drop_last());
        }
    }
    parts
}

/// Removes leading and trailing whitespace from `s`.
pub fn trim_str<'a>(s: &'a str) -> (r: &'a str)
    ensures
        r@ == trim_spec(s@),
{
    let n = s.unicode_len();
    let mut a: usize = 0;
    while a < n
        invariant
            n == s@.len(),
            a <= n,
            forall|j: int| 0 <= j < a ==> is_space(s@[j]),
        ensures
            a <= n,
            forall|j: int| 0 <= j < a ==> is_space(s@[j]),
            a == n || !is_space(s@[a as int]),
        decreases n - a,
    {
        let c = s.get_char(a);
        if c == ' ' || c == '\t' || c == '\r' {
            a = a + 1;
        } else {
            break;
        }
    }
    let mut b: usize = n;
    while b > a
        invariant
            n == s@.len(),
            a <= b <= n,
            forall|j: int| b <= j < n ==> is_space(s@[j]),
            forall|j: int| 0 <= j < a ==> is_space(s@[j]),
            a == n || !is_space(s@[a as int]),
        ensures
            a <= b <= n,
            forall|j: int| b <= j < n ==> is_space(s@[j]),
            b == a || !is_space(s@[b - 1]),
        decreases b,
    {
        let c = s.get_char(b - 1);
        if c == ' ' || c == '\t' || c == '\r' {
            b = b - 1;
        } else {
            break;
        }
    }
    proof {
        lemma_trim_front_skip(s@, a as int);
        let t = s@.skip(a as int);
        assert forall|j: int| (b - a) <= j < t.len() implies is_space(t[j]) by {
            assert(t[j] == s@[j + a]);
        }
        if b > a {
            assert(!is_space(s@[b - 1]));
            assert(t[b - a - 1] == s@[b - 1]);
        }
        lemma_trim_back_take(t, b - a);
        assert(t.take(b - a) =~= s@.subrange(a as int, b as int));
    }
    s.substring_char(a, b)
}

/// Returns the `n`-th space-separated token of `line`, if present.
pub fn nth_token<'a>(line: &'a str, n: usize) -> (r: Option<&'a str>)
    ensures
        match r {
            Some(t) => tok_at(line@, n as int) == Some(t@),
            None => tok_at(line@, n as int) is None,
        },
{
    let mut rest: &'a str = line;
    let mut k: usize = 0;
    let ghost mut done: Seq<Seq<char>> = Seq::empty();
    loop
        invariant
            k <= n,
            done.len() == k,
            tokens_of(line@) == done + tokens_of(rest@),
        decreases rest@.len(),
    {
        match find_in_str(rest, ' ') {
            Some(i) => {
                proof {
                    lemma_find_ch_props(rest@, ' ');
                }
                if k == n {
                    let t = rest.substring_char(0, i);
                    proof {
                        assert(tokens_of(line@)[n as int] == tokens_of(rest@)[0]);
                        assert(tokens_of(rest@)[0] == rest@.take(i as int));
                        assert(t@ == rest@.subrange(0, i as int));
                    }
                    return Some(t);
                }
                let rn = rest.unicode_len();
                let next = rest.substring_char(i + 1, rn);
                proof {
                    assert(next@ =~= rest@.skip(i + 1));
                    done = done.push(rest@.take(i as int));
                    assert(done + tokens_of(next@) =~= tokens_of(line@));
                }
                rest = next;
                k = k + 1;
            },
            None => {
                proof {
                    lemma_find_ch_props(rest@, ' ');
                    lemma_split_sepfree(rest@, ' ');
                }
                if k == n {
                    proof {
                        assert(tokens_of(line@)[n as int] == rest@);
                    }
                    return Some(rest);
                } else {
                    proof {
                        assert(tokens_of(line@).len() == k + 1);
                    }
                    return None;
                }
            },
        }
    }
}

/// Parses a non-empty all-digit token as an unsigned machine integer.
pub fn parse_usize_token(t: &str) -> (r: Option<usize>)
    ensures
        r == spec_parse_usize(t@),
{
    let n = t.unicode_len();
    if n == 0 {
        return None;
    }
    let mut val: usize = 0;
    let mut i: usize = 0;
    while i < n
        invariant
            n == t@.len(),
            i <= n,
            forall|j: int| 0 <= j < i ==> is_digit(#[trigger] t@[j]),
            val == digits_val(t@.take(i as int)),
        decreases n - i,
    {
        let c = t.get_char(i);
        let cv = c as u32;
        if cv < 48 || cv > 57 {
            proof {
                assert(!is_digit(t@[i as int]));
            }
            return None;
        }
        let d = (cv - 48) as usize;
        proof {
            lemma_digits_val_extend(t@, i as int);
        }
        let hi = match val.checked_mul(10) {
            Some(h) => h,
            None => {
                proof {
                    lemma_digits_val_mono(t@, i + 1);
                }
                return None;
            },
        };
        let nv = match hi.checked_add(d) {
            Some(v) => v,
            None => {
                proof {
                    lemma_digits_val_mono(t@, i + 1);
                }
                return None;
            },
        };
        val = nv;
        i = i + 1;
    }
    proof {
        assert(t@.take(n as int) =~= t@);
    }
    Some(val)
}

/// Appends one digit character to `out`.
fn push_digit(out: &mut String, d: u64)
    requires
        d < 10,
    ensures
        final(out)@ == old(out)@ + seq![digit_char(d as nat)],
{
    proof {
        reveal_strlit("0");
        reveal_strlit("1");
        reveal_strlit("2");
        reveal_strlit("3");
        reveal_strlit("4");
        reveal_strlit("5");
        reveal_strlit("6");
        reveal_strlit("7");
        reveal_strlit("8");
        reveal_strlit("9");
    }
    if d == 0 {
        out.append("0");
    } else if d == 1 {
        out.append("1");
    } else if d == 2 {
        out.append("2");
    } else if d == 3 {
        out.append("3");
    } else if d == 4 {
        out.append("4");
    } else if d == 5 {
        out.append("5");
    } else if d == 6 {
        out.append("6");
    } else if d == 7 {
        out.append("7");
    } else if d == 8 {
        out.append("8");
    } else {
        out.append("9");
    }
    proof {
        assert(final(out)@ =~= old(out)@ + seq![digit_char(d as nat)]);
    }
}

/// Appends the decimal rendering of `n` to `out`.
pub fn push_u64(out: &mut String, n: u64)
    ensures
        final(out)@ == old(out)@ + dec_digits(n as nat),
    decreases n,
{
    if n >= 10 {
        push_u64(out, n / 10);
        push_digit(out, n % 10);
        proof {
            assert(final(out)@ =~= old(out)@ + dec_digits(n as nat));
        }
    } else {
        push_digit(out, n);
    }
}

/// Appends the decimal rendering of a machine integer to `out`.
pub fn push_usize(out: &mut String, n: usize)
    ensures
        final(out)@ == old(out)@ + dec_digits(n as nat),
{
    push_u64(out, n as u64);
}

} // verus!
