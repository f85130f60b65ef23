//! Character-level text operations used throughout the translator.
use vstd::prelude::*;

verus! {

/// Whether two strings hold the same characters.
pub fn str_equals(a: &str, b: &str) -> (res: bool)
    ensures
        res == (a@ == b@),
{
    let n = a.unicode_len();
    let m = b.unicode_len();
    if n != m {
        return false;
    }
    let mut i: usize = 0;
    while i < n
        invariant
            n == a@.len(),
            m == b@.len(),
            n == m,
            i <= n,
            forall|k: int| 0 <= k < i ==> a@[k] == b@[k],
        decreases n - i,
    {
        if a.get_char(i) != b.get_char(i) {
            return false;
        }
        i = i + 1;
    }
    assert(a@ =~= b@);
    true
}


/// The characters that carry the Unicode `White_Space` property, which is
/// what `char::is_whitespace` and `str::trim` go by.
pub open spec fn is_whitespace(c: char) -> bool {
    let u = c as u32;
    ||| 0x09 <= u <= 0x0d
    ||| u == 0x20
    ||| u == 0x85
    ||| u == 0xa0
    ||| u == 0x1680
    ||| 0x2000 <= u <= 0x200a
    ||| u == 0x2028
    ||| u == 0x2029
    ||| u == 0x202f
    ||| u == 0x205f
    ||| u == 0x3000
}

/// `s` without its leading whitespace.
pub open spec fn trim_start(s: Seq<char>) -> Seq<char>
    decreases s.len(),
{
    if s.len() > 0 && is_whitespace(s[0]) {
        trim_start(s.drop_first())
    } else {
        s
    }
}

/// `s` without its trailing whitespace.
pub open spec fn trim_end(s: Seq<char>) -> Seq<char>
    decreases s.len(),
{
    if s.len() > 0 && is_whitespace(s.last()) {
        trim_end(s.drop_last())
    } else {
        s
    }
}

/// `s` without leading and trailing whitespace.
pub open spec fn trim(s: Seq<char>) -> Seq<char> {
    trim_end(trim_start(s))
}

/// Whether `c` is whitespace in the sense of [`is_whitespace`].
pub fn char_is_whitespace(c: char) -> (res: bool)
    ensures
        res == is_whitespace(c),
{
    let u = c as u32;
    (0x09 <= u && u <= 0x0d) || u == 0x20 || u == 0x85 || u == 0xa0 || u == 0x1680 || (0x2000
        <= u && u <= 0x200a) || u == 0x2028 || u == 0x2029 || u == 0x202f || u == 0x205f || u
        == 0x3000
}

/// Removes leading and trailing whitespace.
pub fn trim_str(s: &str) -> (res: &str)
    ensures
        res@ == trim(s@),
{
    let n = s.unicode_len();
    let mut i: usize = 0;
    assert(s@.subrange(0, n as int) =~= s@);
    while i < n && char_is_whitespace(s.get_char(i))
        invariant
            n == s@.len(),
            i <= n,
            trim_start(s@) == trim_start(s@.subrange(i as int, n as int)),
        decreases n - i,
    {
        assert(s@.subrange(i as int, n as int).drop_first() =~= s@.subrange(i + 1, n as int));
        i = i + 1;
    }
    assert(trim_start(s@) == s@.subrange(i as int, n as int));
    let mut j: usize = n;
    while j > i && char_is_whitespace(s.get_char(j - 1))
        invariant
            n == s@.len(),
            i <= j <= n,
            trim(s@) == trim_end(s@.subrange(i as int, j as int)),
        decreases j,
    {
        assert(s@.subrange(i as int, j as int).drop_last() =~= s@.subrange(i as int, j - 1));
        j = j - 1;
    }
    s.substring_char(i, j)
}


/// Whether `pat` occurs in `s` starting at character index `pos`.
pub open spec fn occurs_at(s: Seq<char>, pos: int, pat: Seq<char>) -> bool {
    0 <= pos && pos + pat.len() <= s.len() && s.subrange(pos, pos + pat.len()) == pat
}

/// Whether `s` begins with `prefix`.
pub open spec fn has_prefix(s: Seq<char>, prefix: Seq<char>) -> bool {
    occurs_at(s, 0, prefix)
}

/// `s` with every trailing repetition of the pattern `pat` removed, as
/// `str::trim_end_matches` does with a string pattern; an empty pattern
/// removes nothing.
pub open spec fn strip_suffixes(s: Seq<char>, pat: Seq<char>) -> Seq<char>
    decreases s.len(),
{
    if pat.len() > 0 && occurs_at(s, s.len() - pat.len(), pat) {
        strip_suffixes(s.subrange(0, s.len() - pat.len()), pat)
    } else {
        s
    }
}

/// Lexicographic order on character sequences, by code point; for strings this
/// is the order of `String`'s `Ord`, which compares the UTF-8 bytes.
pub open spec fn lex_lt(a: Seq<char>, b: Seq<char>) -> bool
    decreases a.len(),
{
    if a.len() == 0 {
        b.len() > 0
    } else if b.len() == 0 {
        false
    } else if a[0] != b[0] {
        (a[0] as int) < (b[0] as int)
    } else {
        lex_lt(a.drop_first(), b.drop_first())
    }
}

/// Whether `pat` occurs in `s` at character index `pos`.
pub fn matches_at(s: &str, pos: usize, pat: &str) -> (res: bool)
    ensures
        res == occurs_at(s@, pos as int, pat@),
{
    let n = s.unicode_len();
    let m = pat.unicode_len();
    if pos > n || m > n - pos {
        return false;
    }
    let mut k: usize = 0;
    while k < m
        invariant
            n == s@.len(),
            m == pat@.len(),
            pos + m <= n,
            k <= m,
            forall|t: int| 0 <= t < k ==> s@[pos + t] == pat@[t],
        decreases m - k,
    {
        if s.get_char(pos + k) != pat.get_char(k) {
            assert(s@.subrange(pos as int, pos + m)[k as int] != pat@[k as int]);
            return false;
        }
        k = k + 1;
    }
    assert(s@.subrange(pos as int, pos + m) =~= pat@);
    true
}

/// Whether `s` begins with `prefix`.
pub fn starts_with(s: &str, prefix: &str) -> (res: bool)
    ensures
        res == has_prefix(s@, prefix@),
{
    matches_at(s, 0, prefix)
}

/// Removes every trailing repetition of `pat`, as `str::trim_end_matches` does.
pub fn trim_end_matches<'a>(s: &'a str, pat: &str) -> (res: &'a str)
    ensures
        res@ == strip_suffixes(s@, pat@),
{
    let n = s.unicode_len();
    let m = pat.unicode_len();
    if m == 0 {
        return s;
    }
    let mut j: usize = n;
    assert(s@.subrange(0, n as int) =~= s@);
    while j >= m && matches_at(s, j - m, pat)
        invariant
            n == s@.len(),
            m == pat@.len(),
            m > 0,
            j <= n,
            strip_suffixes(s@, pat@) == strip_suffixes(s@.subrange(0, j as int), pat@),
        decreases j,
    {
        let ghost t = s@.subrange(0, j as int);
        assert(t.subrange(j - m, j as int) =~= s@.subrange(j - m, j as int));
        assert(t.subrange(0, j - m) =~= s@.subrange(0, j - m));
        j = j - m;
    }
    proof {
        let t = s@.subrange(0, j as int);
        if j >= m {
            assert(t.subrange(j - m, j as int) =~= s@.subrange(j - m, j as int));
        }
    }
    s.substring_char(0, j)
}

/// Whether `a` comes strictly before `b` in lexicographic order.
pub fn str_less(a: &str, b: &str) -> (res: bool)
    ensures
        res == lex_lt(a@, b@),
{
    let n = a.unicode_len();
    let m = b.unicode_len();
    let mut i: usize = 0;
    assert(a@.skip(0) =~= a@);
    assert(b@.skip(0) =~= b@);
    loop
        invariant
            n == a@.len(),
            m == b@.len(),
            i <= n,
            i <= m,
            lex_lt(a@, b@) == lex_lt(a@.skip(i as int), b@.skip(i as int)),
        decreases n - i,
    {
        if i == n {
            return i < m;
        }
        if i == m {
            return false;
        }
        let x = a.get_char(i);
        let y = b.get_char(i);
        if x != y {
            return x < y;
        }
        assert(a@.skip(i as int).drop_first() =~= a@.skip(i + 1));
        assert(b@.skip(i as int).drop_first() =~= b@.skip(i + 1));
        i = i + 1;
    }
}

/// Names the characters that `char::to_uppercase` yields for `c`.
pub uninterp spec fn uppercase_mapping(c: char) -> Seq<char>;

/// Calls `char::to_uppercase` and collects what it yields into a `String`.
/// The contract claims that the result is [`uppercase_mapping`] of `c` (a
/// function of `c` alone, by the Unicode case tables), and, as the Unicode
/// tables give for ASCII, that a lower-case ASCII letter maps to its capital
/// and every other ASCII character to itself.
#[verifier::external_body]
fn char_to_uppercase(c: char) -> (res: String)
    ensures
        res@ == uppercase_mapping(c),
        'a' <= c <= 'z' ==> res@ == seq![((c as u32) - 32) as char],
        (c as u32) < 128 && !('a' <= c <= 'z') ==> res@ == seq![c],
{
    c.to_uppercase().collect::<String>()
}

/// What [`capitalize_first`] returns: the first character in upper case,
/// followed by the rest unchanged.
pub open spec fn capitalized(s: Seq<char>) -> Seq<char> {
    if s.len() == 0 {
        Seq::empty()
    } else {
        uppercase_mapping(s[0]) + s.drop_first()
    }
}

/// Upper-cases the first character of `s`.
pub fn capitalize_first(s: &str) -> (res: String)
    ensures
        res@ == capitalized(s@),
        s@.len() > 0 && 'a' <= s@[0] <= 'z' ==> res@ == seq![((s@[0] as u32) - 32) as char]
            + s@.drop_first(),
        s@.len() > 0 && (s@[0] as u32) < 128 && !('a' <= s@[0] <= 'z') ==> res@ == s@,
        s@.len() == 0 ==> res@.len() == 0,
{
    let n = s.unicode_len();
    if n == 0 {
        return String::new();
    }
    let first = s.get_char(0);
    let mut res = char_to_uppercase(first);
    let rest = s.substring_char(1, n);
    assert(rest@ =~= s@.drop_first());
    res.append(rest);
    assert(s@ =~= seq![s@[0]] + s@.drop_first());
    res
}

/// Joins two pieces of text into a new `String`.
pub fn join2(a: &str, b: &str) -> (res: String)
    ensures
        res@ == a@ + b@,
{
    let mut res = String::from_str(a);
    res.append(b);
    res
}


proof fn lemma_trim_start_shape(s: Seq<char>)
    ensures
        trim_start(s).len() == 0 || !is_whitespace(trim_start(s)[0]),
    decreases s.len(),
{
    if s.len() > 0 && is_whitespace(s[0]) {
        lemma_trim_start_shape(s.drop_first());
    }
}

proof fn lemma_trim_end_shape(s: Seq<char>)
    ensures
        trim_end(s).len() <= s.len(),
        trim_end(s) == s.take(trim_end(s).len() as int),
        trim_end(s).len() == 0 || !is_whitespace(trim_end(s).last()),
    decreases s.len(),
{
    if s.len() > 0 && is_whitespace(s.last()) {
        lemma_trim_end_shape(s.drop_last());
        let t = trim_end(s.drop_last());
        assert(s.drop_last().take(t.len() as int) =~= s.take(t.len() as int));
    } else {
        assert(s.take(s.len() as int) =~= s);
    }
}

/// Trimming twice is trimming once: a trimmed text has no surrounding
/// whitespace left.
pub proof fn lemma_trim_idempotent(s: Seq<char>)
    ensures
        trim(trim(s)) == trim(s),
{
    let u = trim_start(s);
    lemma_trim_start_shape(s);
    lemma_trim_end_shape(u);
    let t = trim_end(u);
    if t.len() > 0 {
        assert(t[0] == u[0]);
    }
    assert(trim_start(t) == t);
    assert(trim_end(t) == t);
}


/// A trimmed text neither starts nor ends with whitespace.
pub proof fn lemma_trim_shape(s: Seq<char>)
    ensures
        trim(s).len() > 0 ==> !is_whitespace(trim(s)[0]) && !is_whitespace(trim(s).last()),
        trim_start(trim(s)) == trim(s),
        trim_end(trim(s)) == trim(s),
{
    let u = trim_start(s);
    lemma_trim_start_shape(s);
    lemma_trim_end_shape(u);
    let t = trim_end(u);
    if t.len() > 0 {
        assert(t[0] == u[0]);
    }
    assert(trim_start(t) == t);
    if t.len() > 0 {
        assert(trim_end(t) == t);
    }
}

/// `n` copies of `pat` one after the other.
pub open spec fn repeated(pat: Seq<char>, n: nat) -> Seq<char>
    decreases n,
{
    if n == 0 {
        Seq::empty()
    } else {
        repeated(pat, (n - 1) as nat) + pat
    }
}

/// Law: stripping the repetitions of a suffix leaves a start of the text
/// that the pattern no longer ends, followed in the text by nothing but
/// copies of the pattern (none for an empty pattern).
pub proof fn lemma_strip_suffixes(s: Seq<char>, pat: Seq<char>) -> (n: nat)
    ensures
        s == strip_suffixes(s, pat) + repeated(pat, n),
        pat.len() > 0 ==> !occurs_at(
            strip_suffixes(s, pat),
            strip_suffixes(s, pat).len() - pat.len(),
            pat,
        ),
        pat.len() == 0 ==> n == 0,
    decreases s.len(),
{
    if pat.len() > 0 && occurs_at(s, s.len() - pat.len(), pat) {
        let head = s.subrange(0, s.len() - pat.len());
        let m = lemma_strip_suffixes(head, pat);
        let r = strip_suffixes(head, pat);
        assert(repeated(pat, m + 1) == repeated(pat, m) + pat);
        assert(s =~= head + pat);
        assert(s =~= r + repeated(pat, m + 1));
        m + 1
    } else {
        assert(s =~= s + repeated(pat, 0));
        0
    }
}

/// Whether `a` and `b` agree before index `k` and `a` has the smaller
/// character there.
pub open spec fn smaller_at(a: Seq<char>, b: Seq<char>, k: int) -> bool {
    &&& 0 <= k < a.len()
    &&& k < b.len()
    &&& a.take(k) == b.take(k)
    &&& (a[k] as int) < (b[k] as int)
}

/// Law: `a` comes before `b` exactly when, at the first character where
/// they differ, `a` has the smaller code point, or when `a` is a proper
/// start of `b`.
pub proof fn lemma_lex_lt_meaning(a: Seq<char>, b: Seq<char>)
    ensures
        lex_lt(a, b) <==> (exists|k: int| #[trigger] smaller_at(a, b, k)) || (a.len() < b.len()
            && b.take(a.len() as int) == a),
    decreases a.len(),
{
    if a.len() == 0 {
        assert(b.take(0) =~= a);
    } else if b.len() == 0 {
    } else if a[0] != b[0] {
        if (a[0] as int) < (b[0] as int) {
            assert(a.take(0) =~= b.take(0));
            assert(smaller_at(a, b, 0));
        }
        assert forall|k: int| !smaller_at(a, b, k) || k == 0 by {
            if smaller_at(a, b, k) && k > 0 {
                assert(a.take(k)[0] == b.take(k)[0]);
            }
        }
        if a.len() < b.len() && b.take(a.len() as int) == a {
            assert(b.take(a.len() as int)[0] == a[0]);
        }
    } else {
        let a1 = a.drop_first();
        let b1 = b.drop_first();
        lemma_lex_lt_meaning(a1, b1);
        if exists|k: int| #[trigger] smaller_at(a1, b1, k) {
            let k = choose|k: int| #[trigger] smaller_at(a1, b1, k);
            assert(a.take(k + 1) =~= seq![a[0]] + a1.take(k));
            assert(b.take(k + 1) =~= seq![b[0]] + b1.take(k));
            assert(smaller_at(a, b, k + 1));
        }
        if exists|k: int| #[trigger] smaller_at(a, b, k) {
            let k = choose|k: int| #[trigger] smaller_at(a, b, k);
            assert(k > 0) by {
                if k == 0 {
                }
            }
            assert(a1.take(k - 1) =~= a.take(k).drop_first());
            assert(b1.take(k - 1) =~= b.take(k).drop_first());
            assert(smaller_at(a1, b1, k - 1));
        }
        if a1.len() < b1.len() && b1.take(a1.len() as int) == a1 {
            assert(b.take(a.len() as int) =~= seq![b[0]] + b1.take(a1.len() as int));
            assert(a =~= seq![a[0]] + a1);
        }
        if a.len() < b.len() && b.take(a.len() as int) == a {
            assert(b1.take(a1.len() as int) =~= b.take(a.len() as int).drop_first());
        }
    }
}

/// Lexicographic order is irreflexive and asymmetric.
pub proof fn lemma_lex_asymmetric(a: Seq<char>, b: Seq<char>)
    ensures
        !lex_lt(a, a),
        lex_lt(a, b) ==> !lex_lt(b, a),
    decreases a.len(),
{
    if a.len() > 0 && b.len() > 0 {
        lemma_lex_asymmetric(a.drop_first(), b.drop_first());
    }
    if a.len() > 0 {
        lemma_lex_asymmetric(a.drop_first(), a.drop_first());
    }
}

/// Lexicographic order is transitive.
pub proof fn lemma_lex_transitive(a: Seq<char>, b: Seq<char>, c: Seq<char>)
    requires
        lex_lt(a, b),
        lex_lt(b, c),
    ensures
        lex_lt(a, c),
    decreases a.len(),
{
    if a.len() > 0 && b.len() > 0 && c.len() > 0 && a[0] == b[0] && b[0] == c[0] {
        lemma_lex_transitive(a.drop_first(), b.drop_first(), c.drop_first());
    }
}

/// Lexicographic order is total: of two different texts one comes first.
pub proof fn lemma_lex_total(a: Seq<char>, b: Seq<char>)
    ensures
        a == b || lex_lt(a, b) || lex_lt(b, a),
    decreases a.len(),
{
    if a.len() > 0 && b.len() > 0 && a[0] == b[0] {
        lemma_lex_total(a.drop_first(), b.drop_first());
        if a.drop_first() == b.drop_first() {
            assert(a =~= seq![a[0]] + a.drop_first());
            assert(b =~= seq![b[0]] + b.drop_first());
        }
    } else if a.len() == 0 && b.len() == 0 {
        assert(a =~= b);
    } else if a.len() > 0 && b.len() > 0 {
        assert(a[0] as int != b[0] as int);
    }
}


/// The character of a decimal digit.
pub open spec fn digit_char(d: nat) -> char {
    (48 + d) as char
}

/// The decimal notation of `n`, without leading zeros.
pub open spec fn decimal(n: nat) -> Seq<char>
    decreases n,
{
    if n < 10 {
        seq![digit_char(n)]
    } else {
        decimal(n / 10) + seq![digit_char(n % 10)]
    }
}

fn digit_str(d: u32) -> (res: &'static str)
    requires
        d < 10,
    ensures
        res@ == seq![digit_char(d as nat)],
{
    proof {
        reveal_strlit("0");
        reveal_strlit("1");
        reveal_strlit("2");
        reveal_strlit("3");
        reveal_strlit("4");
        reveal_strlit("5");
        reveal_strlit("6");
        reveal_strlit("7");
        reveal_strlit("8");
        reveal_strlit("9");
    }
    if d == 0 {
        "0"
    } else if d == 1 {
        "1"
    } else if d == 2 {
        "2"
    } else if d == 3 {
        "3"
    } else if d == 4 {
        "4"
    } else if d == 5 {
        "5"
    } else if d == 6 {
        "6"
    } else if d == 7 {
        "7"
    } else if d == 8 {
        "8"
    } else {
        "9"
    }
}

/// Formats `n` in decimal, as `{}` formats an integer.
pub fn decimal_string(n: u32) -> (res: String)
    ensures
        res@ == decimal(n as nat),
    decreases n,
{
    if n < 10 {
        String::from_str(digit_str(n))
    } else {
        let mut s = decimal_string(n / 10);
        s.append(digit_str(n % 10));
        s
    }
}

} // verus!
