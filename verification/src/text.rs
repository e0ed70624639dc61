//! Character-level text utilities: the mathematical model (`Seq<char>`)
//! and executable counterparts used by the protocol parsers and the filter.

use vstd::prelude::*;

verus! {

/// The whitespace characters recognised by the sanitiser, matching the
/// Unicode `White_Space` set.
pub open spec fn is_space_char(c: char) -> bool {
    ||| c == ' '
    ||| c == '\t'
    ||| c == '\n'
    ||| c == '\u{b}'
    ||| c == '\u{c}'
    ||| c == '\r'
    ||| c == '\u{85}'
    ||| c == '\u{a0}'
    ||| c == '\u{1680}'
    ||| ('\u{2000}' <= c && c <= '\u{200a}')
    ||| c == '\u{2028}'
    ||| c == '\u{2029}'
    ||| c == '\u{202f}'
    ||| c == '\u{205f}'
    ||| c == '\u{3000}'
}

pub fn is_space(c: char) -> (r: bool)
    ensures
        r == is_space_char(c),
{
    c == ' ' || c == '\t' || c == '\n' || c == '\u{b}' || c == '\u{c}' || c == '\r' || c
        == '\u{85}' || c == '\u{a0}' || c == '\u{1680}' || ('\u{2000}' <= c && c <= '\u{200a}') || c
        == '\u{2028}' || c == '\u{2029}' || c == '\u{202f}' || c == '\u{205f}' || c == '\u{3000}'
}

pub open spec fn is_ascii_digit_char(c: char) -> bool {
    '0' <= c && c <= '9'
}

pub open spec fn digit_value(c: char) -> int {
    c as u32 - '0' as u32
}

/// ASCII-only lowercasing of one character.
pub open spec fn ascii_lower_char(c: char) -> char {
    if 'A' <= c && c <= 'Z' {
        ((c as u8) + 32) as char
    } else {
        c
    }
}

pub fn ascii_lower(c: char) -> (r: char)
    ensures
        r == ascii_lower_char(c),
{
    if 'A' <= c && c <= 'Z' {
        ((c as u8) + 32) as char
    } else {
        c
    }
}

pub open spec fn ascii_lower_seq(s: Seq<char>) -> Seq<char> {
    s.map_values(|c: char| ascii_lower_char(c))
}

pub fn ascii_lowercase(v: &Vec<char>) -> (r: Vec<char>)
    ensures
        r@ == ascii_lower_seq(v@),
{
    let mut r: Vec<char> = Vec::new();
    let mut i: usize = 0;
    while i < v.len()
        invariant
            i <= v.len(),
            r@ == ascii_lower_seq(v@.take(i as int)),
        decreases v.len() - i,
    {
        r.push(ascii_lower(v[i]));
        i = i + 1;
        proof {
            assert(v@.take(i as int) =~= v@.take(i - 1).push(v@[i - 1]));
            assert(ascii_lower_seq(v@.take(i as int)) =~= ascii_lower_seq(v@.take(i - 1)).push(
                ascii_lower_char(v@[i - 1]),
            ));
        }
    }
    proof {
        assert(v@.take(v@.len() as int) =~= v@);
    }
    r
}

/// The characters of a string, in order.
pub fn str_chars(s: &str) -> (v: Vec<char>)
    ensures
        v@ == s@,
{
    let n = s.unicode_len();
    let mut v: Vec<char> = Vec::new();
    let mut i: usize = 0;
    while i < n
        invariant
            i <= n,
            n == s@.len(),
            v@ == s@.take(i as int),
        decreases n - i,
    {
        v.push(s.get_char(i));
        i = i + 1;
        proof {
            assert(s@.take(i as int) =~= s@.take(i - 1).push(s@[i - 1]));
        }
    }
    proof {
        assert(s@.take(s@.len() as int) =~= s@);
    }
    v
}

/// Relies on `String`'s `FromIterator<char>`: collecting characters yields
/// the string of exactly those characters, in order.
#[verifier::external_body]
pub fn chars_string(v: &Vec<char>) -> (s: String)
    ensures
        s@ == v@,
{
    v.iter().collect()
}

/// What `str::to_lowercase` returns: a function of the characters alone.
pub uninterp spec fn lower_of(s: Seq<char>) -> Seq<char>;

/// Relies on `str::to_lowercase`: the result depends on the characters alone,
/// and an empty string stays empty.
#[verifier::external_body]
pub fn lowercase(s: &str) -> (r: String)
    ensures
        r@ == lower_of(s@),
        s@.len() == 0 ==> r@.len() == 0,
{
    s.to_lowercase()
}

/// Number of leading characters of `s` satisfying `p`.
pub open spec fn leading_while(s: Seq<char>, p: spec_fn(char) -> bool) -> nat
    decreases s.len(),
{
    if s.len() == 0 || !p(s[0]) {
        0
    } else {
        1 + leading_while(s.drop_first(), p)
    }
}

pub proof fn lemma_leading_while(s: Seq<char>, p: spec_fn(char) -> bool)
    ensures
        leading_while(s, p) <= s.len(),
        forall|i: int| 0 <= i < leading_while(s, p) ==> p(s[i]),
        leading_while(s, p) < s.len() ==> !p(s[leading_while(s, p) as int]),
    decreases s.len(),
{
    if s.len() == 0 || !p(s[0]) {
    } else {
        lemma_leading_while(s.drop_first(), p);
        assert forall|i: int| 0 <= i < leading_while(s, p) implies p(s[i]) by {
            if i > 0 {
                assert(s.drop_first()[i - 1] == s[i]);
            }
        }
        if leading_while(s, p) < s.len() {
            assert(s.drop_first()[leading_while(s, p) - 1] == s[leading_while(s, p) as int]);
        }
    }
}

/// The predicate "is the character `c`", from one definition site so that
/// all its uses denote one function.
pub open spec fn char_eq_fn(c: char) -> spec_fn(char) -> bool {
    |x: char| x == c
}

/// The predicate "is not the character `c`".
pub open spec fn char_ne_fn(c: char) -> spec_fn(char) -> bool {
    |x: char| x != c
}

/// Number of trailing characters of `s` satisfying `p`.
pub open spec fn trailing_while(s: Seq<char>, p: spec_fn(char) -> bool) -> nat
    decreases s.len(),
{
    if s.len() == 0 || !p(s.last()) {
        0
    } else {
        1 + trailing_while(s.drop_last(), p)
    }
}

pub proof fn lemma_trailing_while(s: Seq<char>, p: spec_fn(char) -> bool)
    ensures
        trailing_while(s, p) <= s.len(),
        forall|i: int| s.len() - trailing_while(s, p) <= i < s.len() ==> p(s[i]),
        trailing_while(s, p) < s.len() ==> !p(s[s.len() - trailing_while(s, p) - 1]),
    decreases s.len(),
{
    if s.len() == 0 || !p(s.last()) {
    } else {
        lemma_trailing_while(s.drop_last(), p);
        assert forall|i: int| s.len() - trailing_while(s, p) <= i < s.len() implies p(s[i]) by {
            if i < s.len() - 1 {
                assert(s.drop_last()[i] == s[i]);
            }
        }
        if trailing_while(s, p) < s.len() {
            assert(s.drop_last()[s.len() - trailing_while(s, p) - 1] == s[s.len() - trailing_while(
                s,
                p,
            ) - 1]);
        }
    }
}

/// `s` with its leading and trailing characters satisfying `p` removed.
pub open spec fn trim_while(s: Seq<char>, p: spec_fn(char) -> bool) -> Seq<char> {
    let rest = s.skip(leading_while(s, p) as int);
    rest.take(rest.len() - trailing_while(rest, p))
}

/// `s` trimmed of whitespace at both ends, as `str::trim` does.
pub open spec fn trim_spaces_spec(s: Seq<char>) -> Seq<char> {
    trim_while(s, |c: char| is_space_char(c))
}

/// If the first `i` characters satisfy `p` and the one at `i` (if any) does
/// not, then `i` is exactly the leading run.
pub proof fn lemma_leading_while_eq(s: Seq<char>, p: spec_fn(char) -> bool, i: int)
    requires
        0 <= i <= s.len(),
        forall|j: int| 0 <= j < i ==> p(s[j]),
        i < s.len() ==> !p(s[i]),
    ensures
        leading_while(s, p) == i,
    decreases i,
{
    if i == 0 {
    } else {
        assert(p(s[0]));
        lemma_leading_while_eq(s.drop_first(), p, i - 1);
    }
}

/// The mirror statement for the trailing run.
pub proof fn lemma_trailing_while_eq(s: Seq<char>, p: spec_fn(char) -> bool, t: int)
    requires
        0 <= t <= s.len(),
        forall|j: int| s.len() - t <= j < s.len() ==> p(s[j]),
        t < s.len() ==> !p(s[s.len() - t - 1]),
    ensures
        trailing_while(s, p) == t,
    decreases t,
{
    if t == 0 {
    } else {
        assert(p(s.last()));
        lemma_trailing_while_eq(s.drop_last(), p, t - 1);
    }
}

/// The characters of `v` from `a` (inclusive) to `b` (exclusive).
pub fn sub_chars(v: &Vec<char>, a: usize, b: usize) -> (r: Vec<char>)
    requires
        a <= b <= v@.len(),
    ensures
        r@ == v@.subrange(a as int, b as int),
{
    let mut r: Vec<char> = Vec::new();
    let mut i: usize = a;
    while i < b
        invariant
            a <= i <= b <= v@.len(),
            r@ == v@.subrange(a as int, i as int),
        decreases b - i,
    {
        r.push(v[i]);
        i = i + 1;
        proof {
            assert(v@.subrange(a as int, i as int) =~= v@.subrange(a as int, i - 1).push(
                v@[i - 1],
            ));
        }
    }
    r
}

/// Index just past the leading whitespace of `v`.
pub fn leading_space_count(v: &Vec<char>) -> (r: usize)
    ensures
        r == leading_while(v@, |c: char| is_space_char(c)),
{
    let mut i: usize = 0;
    while i < v.len() && is_space(v[i])
        invariant
            i <= v@.len(),
            forall|j: int| 0 <= j < i ==> is_space_char(v@[j]),
        decreases v.len() - i,
    {
        i = i + 1;
    }
    proof {
        lemma_leading_while_eq(v@, |c: char| is_space_char(c), i as int);
    }
    i
}

/// Number of trailing whitespace characters of `v` at positions `from..`.
pub fn trailing_space_count(v: &Vec<char>, from: usize) -> (r: usize)
    requires
        from <= v@.len(),
    ensures
        r == trailing_while(v@.skip(from as int), |c: char| is_space_char(c)),
{
    let mut j: usize = v.len();
    while j > from && is_space(v[j - 1])
        invariant
            from <= j <= v@.len(),
            forall|i: int| j <= i < v@.len() ==> is_space_char(v@[i]),
        decreases j,
    {
        j = j - 1;
    }
    proof {
        let rest = v@.skip(from as int);
        assert forall|i: int| rest.len() - (v@.len() - j) <= i < rest.len() implies is_space_char(
            rest[i],
        ) by {
            assert(rest[i] == v@[from + i]);
        }
        if v@.len() - j < rest.len() {
            assert(rest[rest.len() - (v@.len() - j) - 1] == v@[j - 1]);
        }
        lemma_trailing_while_eq(rest, |c: char| is_space_char(c), v@.len() - j);
    }
    v.len() - j
}

/// `v` trimmed of whitespace at both ends.
pub fn trim_spaces_chars(v: &Vec<char>) -> (r: Vec<char>)
    ensures
        r@ == trim_spaces_spec(v@),
{
    let lead = leading_space_count(v);
    proof {
        lemma_leading_while(v@, |c: char| is_space_char(c));
    }
    let trail = trailing_space_count(v, lead);
    proof {
        lemma_trailing_while(v@.skip(lead as int), |c: char| is_space_char(c));
    }
    let r = sub_chars(v, lead, v.len() - trail);
    proof {
        let p = |c: char| is_space_char(c);
        let rest = v@.skip(lead as int);
        assert(r@ =~= rest.take(rest.len() - trailing_while(rest, p)));
    }
    r
}

/// Index just past the leading run of the character `c`.
pub fn leading_char_count(v: &Vec<char>, c: char) -> (r: usize)
    ensures
        r == leading_while(v@, char_eq_fn(c)),
{
    let mut i: usize = 0;
    while i < v.len() && v[i] == c
        invariant
            i <= v@.len(),
            forall|j: int| 0 <= j < i ==> v@[j] == c,
        decreases v.len() - i,
    {
        i = i + 1;
    }
    proof {
        lemma_leading_while_eq(v@, char_eq_fn(c), i as int);
        assert(forall|j: int| 0 <= j < i ==> char_eq_fn(c)(v@[j]) == (v@[j] == c));
    }
    i
}

/// Number of trailing occurrences of the character `c`.
pub fn trailing_char_count(v: &Vec<char>, c: char) -> (r: usize)
    ensures
        r == trailing_while(v@, char_eq_fn(c)),
{
    let mut j: usize = v.len();
    while j > 0 && v[j - 1] == c
        invariant
            j <= v@.len(),
            forall|i: int| j <= i < v@.len() ==> v@[i] == c,
        decreases j,
    {
        j = j - 1;
    }
    proof {
        lemma_trailing_while_eq(v@, char_eq_fn(c), v@.len() - j);
    }
    v.len() - j
}

// --- substring search ---

/// `pat` occurs in `s` at position `i`.
pub open spec fn matches_at(s: Seq<char>, pat: Seq<char>, i: int) -> bool {
    0 <= i && i + pat.len() <= s.len() && s.subrange(i, i + pat.len()) == pat
}

/// `pat` occurs somewhere in `s`.
pub open spec fn contains_seq(s: Seq<char>, pat: Seq<char>) -> bool {
    exists|i: int| matches_at(s, pat, i)
}

/// `pat` occurs at `i` and nowhere earlier.
pub open spec fn is_first_match(s: Seq<char>, pat: Seq<char>, i: int) -> bool {
    matches_at(s, pat, i) && forall|j: int| 0 <= j < i ==> !matches_at(s, pat, j)
}

/// The position of the first occurrence of `pat` in `s`.
pub open spec fn find_first(s: Seq<char>, pat: Seq<char>) -> int {
    choose|i: int| is_first_match(s, pat, i)
}

pub proof fn lemma_first_match_exists(s: Seq<char>, pat: Seq<char>, k: int)
    requires
        matches_at(s, pat, k),
    ensures
        exists|i: int| is_first_match(s, pat, i),
    decreases k,
{
    if forall|j: int| 0 <= j < k ==> !matches_at(s, pat, j) {
        assert(is_first_match(s, pat, k));
    } else {
        let j = choose|j: int| 0 <= j < k && matches_at(s, pat, j);
        lemma_first_match_exists(s, pat, j);
    }
}

pub proof fn lemma_first_match_unique(s: Seq<char>, pat: Seq<char>, i: int, j: int)
    requires
        is_first_match(s, pat, i),
        is_first_match(s, pat, j),
    ensures
        i == j,
{
    if i < j {
        assert(!matches_at(s, pat, i));
    } else if j < i {
        assert(!matches_at(s, pat, j));
    }
}

/// Whether `pat` occurs in `v` at position `i`.
pub fn match_at(v: &Vec<char>, pat: &Vec<char>, i: usize) -> (r: bool)
    requires
        i <= v@.len(),
    ensures
        r == matches_at(v@, pat@, i as int),
{
    if pat.len() > v.len() - i {
        proof {
            assert(!matches_at(v@, pat@, i as int));
        }
        return false;
    }
    let n: usize = v.len();
    let m: usize = pat.len();
    let mut k: usize = 0;
    while k < m
        invariant
            k <= m,
            m == pat@.len(),
            n == v@.len(),
            i + m <= n,
            forall|j: int| 0 <= j < k ==> v@[i + j] == pat@[j],
        decreases m - k,
    {
        if v[i + k] != pat[k] {
            proof {
                assert(v@.subrange(i as int, i + pat@.len())[k as int] == v@[i + k]);
            }
            return false;
        }
        k = k + 1;
    }
    proof {
        assert(v@.subrange(i as int, i + pat@.len()) =~= pat@);
    }
    true
}

/// The position of the first occurrence of `pat` in `v`, if any.
pub fn find_sub(v: &Vec<char>, pat: &Vec<char>) -> (r: Option<usize>)
    ensures
        match r {
            Some(i) => is_first_match(v@, pat@, i as int),
            None => !contains_seq(v@, pat@),
        },
{
    if pat.len() == 0 {
        proof {
            assert(v@.subrange(0, 0) =~= pat@);
        }
        return Some(0);
    }
    let n: usize = v.len();
    let mut i: usize = 0;
    while i < n
        invariant
            i <= n,
            n == v@.len(),
            pat@.len() > 0,
            forall|j: int| 0 <= j < i ==> !matches_at(v@, pat@, j),
        decreases n - i,
    {
        if match_at(v, pat, i) {
            return Some(i);
        }
        i = i + 1;
    }
    proof {
        assert forall|j: int| !matches_at(v@, pat@, j) by {
            if j >= v@.len() {
                assert(!matches_at(v@, pat@, j));
            }
        }
    }
    None
}

/// Whether `pat` occurs anywhere in `v`.
pub fn contains_sub(v: &Vec<char>, pat: &Vec<char>) -> (r: bool)
    ensures
        r == contains_seq(v@, pat@),
{
    match find_sub(v, pat) {
        Some(_) => true,
        None => false,
    }
}

/// Whether the characters of `v` are exactly `pat`.
pub fn eq_chars(v: &Vec<char>, pat: &Vec<char>) -> (r: bool)
    ensures
        r == (v@ == pat@),
{
    if v.len() != pat.len() {
        return false;
    }
    let r = match_at(v, pat, 0);
    proof {
        if r {
            assert(v@.subrange(0, pat@.len() as int) =~= v@);
        } else {
            assert(v@.subrange(0, pat@.len() as int) =~= v@);
        }
    }
    r
}

/// Whether `v` starts with `pat`.
pub fn starts_with_chars(v: &Vec<char>, pat: &Vec<char>) -> (r: bool)
    ensures
        r == matches_at(v@, pat@, 0),
{
    match_at(v, pat, 0)
}

// --- words ---

/// Length of the leading run of non-whitespace characters, clipped to the
/// length of `s`.
pub open spec fn word_len(s: Seq<char>) -> int {
    let k = leading_while(s, |c: char| !is_space_char(c)) as int;
    if k > s.len() {
        s.len() as int
    } else {
        k
    }
}

/// The maximal non-whitespace runs of `s`, in order, as `str::split_whitespace`
/// yields them.
pub open spec fn words_of(s: Seq<char>) -> Seq<Seq<char>>
    decreases s.len(),
{
    if s.len() == 0 {
        Seq::empty()
    } else if is_space_char(s[0]) {
        words_of(s.drop_first())
    } else {
        seq![s.take(word_len(s))] + words_of(s.skip(word_len(s)))
    }
}

/// Every word is non-empty and free of whitespace.
pub proof fn lemma_words_of_props(s: Seq<char>)
    ensures
        forall|i: int| 0 <= i < words_of(s).len() ==> (#[trigger] words_of(s)[i]).len() > 0,
        forall|i: int, j: int|
            0 <= i < words_of(s).len() && 0 <= j < words_of(s)[i].len() ==> !is_space_char(
                #[trigger] words_of(s)[i][j],
            ),
    decreases s.len(),
{
    if s.len() == 0 {
    } else if is_space_char(s[0]) {
        lemma_words_of_props(s.drop_first());
        assert forall|i: int| 0 <= i < words_of(s).len() implies (#[trigger] words_of(s)[i]).len()
            > 0 by {
            assert(words_of(s)[i] == words_of(s.drop_first())[i]);
        }
        assert forall|i: int, j: int|
            0 <= i < words_of(s).len() && 0 <= j < words_of(s)[i].len() implies !is_space_char(
            words_of(s)[i][j],
        ) by {
            assert(words_of(s)[i] == words_of(s.drop_first())[i]);
            assert(!is_space_char(words_of(s.drop_first())[i][j]));
        }
    } else {
        let p = |c: char| !is_space_char(c);
        lemma_leading_while(s, p);
        assert(p(s[0]));
        let k = word_len(s);
        assert(1 <= k <= s.len());
        lemma_words_of_props(s.skip(k));
        assert forall|i: int| 0 <= i < words_of(s).len() implies (#[trigger] words_of(s)[i]).len()
            > 0 by {
            if i == 0 {
                assert(words_of(s)[0] == s.take(k));
            } else {
                assert(words_of(s)[i] == words_of(s.skip(k))[i - 1]);
            }
        }
        assert forall|i: int, j: int|
            0 <= i < words_of(s).len() && 0 <= j < words_of(s)[i].len() implies !is_space_char(
            words_of(s)[i][j],
        ) by {
            if i == 0 {
                assert(words_of(s)[0] == s.take(k));
                assert(s.take(k)[j] == s[j]);
                assert(p(s[j]));
            } else {
                assert(words_of(s)[i] == words_of(s.skip(k))[i - 1]);
                assert(!is_space_char(words_of(s.skip(k))[i - 1][j]));
            }
        }
    }
}

/// The parts joined by single occurrences of `sep`.
pub open spec fn join_with(parts: Seq<Seq<char>>, sep: char) -> Seq<char>
    decreases parts.len(),
{
    if parts.len() == 0 {
        Seq::empty()
    } else if parts.len() == 1 {
        parts[0]
    } else {
        parts[0] + seq![sep] + join_with(parts.drop_first(), sep)
    }
}

pub proof fn lemma_join_push(parts: Seq<Seq<char>>, sep: char, w: Seq<char>)
    ensures
        join_with(parts.push(w), sep) == if parts.len() == 0 {
            w
        } else {
            join_with(parts, sep) + seq![sep] + w
        },
    decreases parts.len(),
{
    if parts.len() == 0 {
        assert(join_with(parts.push(w), sep) =~= w);
    } else if parts.len() == 1 {
        assert(parts.push(w).drop_first() =~= seq![w]);
        assert(parts.push(w)[0] == parts[0]);
        assert(join_with(seq![w], sep) == w);
        assert(join_with(parts.push(w), sep) =~= parts[0] + seq![sep] + w);
    } else {
        assert(parts.push(w).drop_first() =~= parts.drop_first().push(w));
        lemma_join_push(parts.drop_first(), sep, w);
        assert(join_with(parts.push(w), sep) =~= join_with(parts, sep) + seq![sep] + w);
    }
}

/// Splitting a space-joined sequence of non-empty, space-free parts gives the
/// parts back.
pub proof fn lemma_words_of_join(parts: Seq<Seq<char>>)
    requires
        forall|i: int| 0 <= i < parts.len() ==> (#[trigger] parts[i]).len() > 0,
        forall|i: int, j: int|
            0 <= i < parts.len() && 0 <= j < parts[i].len() ==> !is_space_char(
                #[trigger] parts[i][j],
            ),
    ensures
        words_of(join_with(parts, ' ')) == parts,
    decreases parts.len(),
{
    let p = |c: char| !is_space_char(c);
    if parts.len() == 0 {
        assert(words_of(join_with(parts, ' ')) =~= parts);
    } else if parts.len() == 1 {
        let s = parts[0];
        assert(s.len() > 0);
        assert(!is_space_char(s[0]));
        assert(join_with(parts, ' ') == s);
        assert forall|j: int| 0 <= j < s.len() implies p(s[j]) by {
            assert(!is_space_char(parts[0][j]));
        }
        lemma_leading_while_eq(s, p, s.len() as int);
        assert(word_len(s) == s.len());
        assert(s.take(s.len() as int) =~= s);
        assert(s.skip(s.len() as int) =~= Seq::<char>::empty());
        assert(words_of(Seq::<char>::empty()) == Seq::<Seq<char>>::empty());
        assert(words_of(s) == seq![s.take(s.len() as int)] + words_of(s.skip(s.len() as int)));
        assert(words_of(s) =~~= parts);
    } else {
        let s = join_with(parts, ' ');
        let w = parts[0];
        assert(w.len() > 0);
        let rest = join_with(parts.drop_first(), ' ');
        assert(s == w + seq![' '] + rest);
        assert forall|j: int| 0 <= j < w.len() implies p(s[j]) by {
            assert(s[j] == w[j]);
            assert(!is_space_char(parts[0][j]));
        }
        assert(s[w.len() as int] == ' ');
        assert(!is_space_char(s[0]));
        lemma_leading_while_eq(s, p, w.len() as int);
        assert(word_len(s) == w.len());
        assert(s.take(w.len() as int) =~= w);
        let tail = s.skip(w.len() as int);
        assert(tail[0] == ' ');
        assert(tail.drop_first() =~= rest);
        assert forall|i: int| 0 <= i < parts.drop_first().len() implies (#[trigger] parts.drop_first()[i]).len()
            > 0 by {
            assert(parts.drop_first()[i] == parts[i + 1]);
        }
        assert forall|i: int, j: int|
            0 <= i < parts.drop_first().len() && 0 <= j < parts.drop_first()[i].len() implies !is_space_char(
            #[trigger] parts.drop_first()[i][j],
        ) by {
            assert(parts.drop_first()[i] == parts[i + 1]);
            assert(!is_space_char(parts[i + 1][j]));
        }
        lemma_words_of_join(parts.drop_first());
        assert(words_of(tail) == parts.drop_first());
        assert(words_of(s) =~~= parts);
    }
}

/// The words of `v`, in order.
pub fn split_words(v: &Vec<char>) -> (r: Vec<Vec<char>>)
    ensures
        r.deep_view() == words_of(v@),
{
    let n: usize = v.len();
    let mut r: Vec<Vec<char>> = Vec::new();
    proof {
        assert(v@.skip(0) =~= v@);
        assert(r.deep_view() + words_of(v@) =~= words_of(v@));
    }
    let mut i: usize = 0;
    while i < n
        invariant
            i <= n,
            n == v@.len(),
            r.deep_view() + words_of(v@.skip(i as int)) == words_of(v@),
        decreases n - i,
    {
        if is_space(v[i]) {
            proof {
                assert(v@.skip(i as int).drop_first() =~= v@.skip(i + 1));
            }
            i = i + 1;
        } else {
            let mut j: usize = i + 1;
            while j < n && !is_space(v[j])
                invariant
                    i < j <= n,
                    n == v@.len(),
                    forall|m: int| i <= m < j ==> !is_space_char(v@[m]),
                decreases n - j,
            {
                j = j + 1;
            }
            let w = sub_chars(v, i, j);
            proof {
                let p = |c: char| !is_space_char(c);
                let rest = v@.skip(i as int);
                assert forall|m: int| 0 <= m < j - i implies p(rest[m]) by {
                    assert(rest[m] == v@[i + m]);
                }
                if j - i < rest.len() {
                    assert(rest[j - i] == v@[j as int]);
                }
                lemma_leading_while_eq(rest, p, j - i);
                assert(word_len(rest) == j - i);
                assert(rest.take(j - i) =~= v@.subrange(i as int, j as int));
                assert(rest.skip(j - i) =~= v@.skip(j as int));
                assert(words_of(rest) == seq![w@] + words_of(v@.skip(j as int)));
            }
            let ghost old_r = r.deep_view();
            r.push(w);
            proof {
                assert(r.deep_view() =~~= old_r.push(w@));
                assert(r.deep_view() + words_of(v@.skip(j as int)) =~~= words_of(v@));
            }
            i = j;
        }
    }
    proof {
        assert(v@.skip(n as int) =~= Seq::<char>::empty());
        assert(r.deep_view() =~= words_of(v@));
    }
    r
}

/// Appends the characters of `w` to `acc`.
pub fn append_chars(acc: &mut Vec<char>, w: &Vec<char>)
    ensures
        final (acc)@ == old(acc)@ + w@,
{
    let mut k: usize = 0;
    while k < w.len()
        invariant
            k <= w@.len(),
            acc@ == old(acc)@ + w@.take(k as int),
        decreases w.len() - k,
    {
        acc.push(w[k]);
        k = k + 1;
        proof {
            assert(old(acc)@ + w@.take(k as int) =~= (old(acc)@ + w@.take(k - 1)).push(w@[k - 1]));
        }
    }
    proof {
        assert(w@.take(w@.len() as int) =~= w@);
    }
}

/// The parts joined by single occurrences of `sep`.
pub fn join_chars(ws: &Vec<Vec<char>>, sep: char) -> (r: Vec<char>)
    ensures
        r@ == join_with(ws.deep_view(), sep),
{
    let mut r: Vec<char> = Vec::new();
    if ws.len() == 0 {
        return r;
    }
    append_chars(&mut r, &ws[0]);
    proof {
        assert(ws.deep_view().take(1) =~= seq![ws.deep_view()[0]]);
        assert(r@ =~= join_with(ws.deep_view().take(1), sep));
    }
    let mut i: usize = 1;
    while i < ws.len()
        invariant
            1 <= i <= ws@.len(),
            ws.deep_view().len() == ws@.len(),
            r@ == join_with(ws.deep_view().take(i as int), sep),
        decreases ws.len() - i,
    {
        r.push(sep);
        append_chars(&mut r, &ws[i]);
        proof {
            let dv = ws.deep_view();
            lemma_join_push(dv.take(i as int), sep, dv[i as int]);
            assert(dv.take(i as int).push(dv[i as int]) =~= dv.take(i + 1));
            assert(r@ =~= join_with(dv.take(i + 1), sep));
        }
        i = i + 1;
    }
    proof {
        assert(ws.deep_view().take(ws@.len() as int) =~= ws.deep_view());
    }
    r
}

// --- stripping and splitting on a single character ---

/// `s` without its leading run of the character `c`.
pub open spec fn strip_leading(s: Seq<char>, c: char) -> Seq<char> {
    let k = leading_while(s, char_eq_fn(c)) as int;
    if k > s.len() {
        Seq::empty()
    } else {
        s.skip(k)
    }
}

/// `s` without its trailing run of the character `c`.
pub open spec fn strip_trailing(s: Seq<char>, c: char) -> Seq<char> {
    let k = trailing_while(s, char_eq_fn(c)) as int;
    if k > s.len() {
        Seq::empty()
    } else {
        s.take(s.len() - k)
    }
}

/// `s` without its leading whitespace.
pub open spec fn strip_leading_spaces(s: Seq<char>) -> Seq<char> {
    let k = leading_while(s, |x: char| is_space_char(x)) as int;
    if k > s.len() {
        Seq::empty()
    } else {
        s.skip(k)
    }
}

pub fn strip_leading_char(v: &Vec<char>, c: char) -> (r: Vec<char>)
    ensures
        r@ == strip_leading(v@, c),
{
    let k = leading_char_count(v, c);
    proof {
        lemma_leading_while(v@, char_eq_fn(c));
    }
    sub_chars(v, k, v.len())
}

pub fn strip_trailing_char(v: &Vec<char>, c: char) -> (r: Vec<char>)
    ensures
        r@ == strip_trailing(v@, c),
{
    let k = trailing_char_count(v, c);
    proof {
        lemma_trailing_while(v@, char_eq_fn(c));
    }
    sub_chars(v, 0, v.len() - k)
}

pub fn strip_leading_space_chars(v: &Vec<char>) -> (r: Vec<char>)
    ensures
        r@ == strip_leading_spaces(v@),
{
    let k = leading_space_count(v);
    proof {
        lemma_leading_while(v@, |x: char| is_space_char(x));
    }
    sub_chars(v, k, v.len())
}

/// The position of the first occurrence of `c` in `v`, or the length when
/// there is none.
pub fn find_char(v: &Vec<char>, c: char) -> (r: usize)
    ensures
        r == leading_while(v@, char_ne_fn(c)),
{
    let mut i: usize = 0;
    while i < v.len() && v[i] != c
        invariant
            i <= v@.len(),
            forall|j: int| 0 <= j < i ==> v@[j] != c,
        decreases v.len() - i,
    {
        i = i + 1;
    }
    proof {
        lemma_leading_while_eq(v@, char_ne_fn(c), i as int);
    }
    i
}

/// `s` split at every occurrence of `sep`, keeping empty segments, as
/// `str::split` yields them.
pub open spec fn split_on(s: Seq<char>, sep: char) -> Seq<Seq<char>>
    decreases s.len(),
{
    let k = leading_while(s, char_ne_fn(sep)) as int;
    if k >= s.len() {
        seq![s]
    } else {
        seq![s.take(k)] + split_on(s.skip(k + 1), sep)
    }
}

/// `v` split at every occurrence of `sep`, keeping empty segments.
pub fn split_on_chars(v: &Vec<char>, sep: char) -> (r: Vec<Vec<char>>)
    ensures
        r.deep_view() == split_on(v@, sep),
{
    let n: usize = v.len();
    let mut r: Vec<Vec<char>> = Vec::new();
    let mut i: usize = 0;
    proof {
        assert(v@.skip(0) =~= v@);
        assert(r.deep_view() + split_on(v@, sep) =~= split_on(v@, sep));
    }
    loop
        invariant
            i <= n,
            n == v@.len(),
            r.deep_view() + split_on(v@.skip(i as int), sep) == split_on(v@, sep),
        decreases n - i,
    {
        let mut j: usize = i;
        while j < n && v[j] != sep
            invariant
                i <= j <= n,
                n == v@.len(),
                forall|m: int| i <= m < j ==> v@[m] != sep,
            decreases n - j,
        {
            j = j + 1;
        }
        let seg = sub_chars(v, i, j);
        proof {
            let p = char_ne_fn(sep);
            let rest = v@.skip(i as int);
            assert forall|m: int| 0 <= m < j - i implies p(rest[m]) by {
                assert(rest[m] == v@[i + m]);
            }
            if j - i < rest.len() {
                assert(rest[j - i] == v@[j as int]);
            }
            lemma_leading_while_eq(rest, p, j - i);
            
            assert(rest.take(j - i) =~= v@.subrange(i as int, j as int));
        }
        let ghost old_r = r.deep_view();
        if j < n {
            r.push(seg);
            proof {
                let rest = v@.skip(i as int);
                assert(rest.len() == n - i);
                assert(rest.skip(j - i + 1) =~= v@.skip(j + 1));
                assert(split_on(rest, sep) == seq![seg@] + split_on(v@.skip(j + 1), sep));
                assert(r.deep_view() =~~= old_r.push(seg@));
                assert(r.deep_view() + split_on(v@.skip(j + 1), sep) =~~= split_on(v@, sep));
            }
            i = j + 1;
        } else {
            r.push(seg);
            proof {
                let rest = v@.skip(i as int);
                assert(rest.len() == n - i);
                assert(seg@ =~= rest);
                assert(split_on(rest, sep) == seq![rest]);
                assert(r.deep_view() =~~= old_r.push(seg@));
                assert(r.deep_view() =~~= split_on(v@, sep));
            }
            return r;
        }
    }
}

// --- decimal parsing ---

/// The value of a sequence of decimal digits.
pub open spec fn dec_val(s: Seq<char>) -> int
    decreases s.len(),
{
    if s.len() == 0 {
        0
    } else {
        dec_val(s.drop_last()) * 10 + digit_value(s.last())
    }
}

pub open spec fn all_digits(s: Seq<char>) -> bool {
    forall|i: int| 0 <= i < s.len() ==> is_ascii_digit_char(#[trigger] s[i])
}

/// What `str::parse` accepts for an unsigned integer type, ignoring its
/// range: an optional `+`, then at least one decimal digit.
pub open spec fn parse_uint_spec(s: Seq<char>) -> Option<int> {
    let t = if s.len() > 0 && s[0] == '+' {
        s.drop_first()
    } else {
        s
    };
    if t.len() > 0 && all_digits(t) {
        Some(dec_val(t))
    } else {
        None
    }
}

/// What `str::parse` accepts for a signed integer type, ignoring its range:
/// an optional sign, then at least one decimal digit.
pub open spec fn parse_int_spec(s: Seq<char>) -> Option<int> {
    if s.len() > 0 && s[0] == '-' {
        let t = s.drop_first();
        if t.len() > 0 && all_digits(t) {
            Some(-dec_val(t))
        } else {
            None
        }
    } else {
        parse_uint_spec(s)
    }
}

pub proof fn lemma_dec_val_nonneg(s: Seq<char>)
    requires
        all_digits(s),
    ensures
        dec_val(s) >= 0,
    decreases s.len(),
{
    if s.len() > 0 {
        assert(is_ascii_digit_char(s[s.len() - 1]));
        assert(all_digits(s.drop_last()));
        lemma_dec_val_nonneg(s.drop_last());
    }
}

/// Extending a digit string can only increase its value.
pub proof fn lemma_dec_val_prefix(s: Seq<char>, i: int)
    requires
        all_digits(s),
        0 <= i <= s.len(),
    ensures
        dec_val(s.take(i)) <= dec_val(s),
    decreases s.len() - i,
{
    if i == s.len() {
        assert(s.take(i) =~= s);
    } else {
        lemma_dec_val_prefix(s, i + 1);
        let t = s.take(i + 1);
        assert(t.drop_last() =~= s.take(i));
        assert(is_ascii_digit_char(s[i]));
        assert(all_digits(s.take(i)));
        lemma_dec_val_nonneg(s.take(i));
        assert(dec_val(t) == dec_val(s.take(i)) * 10 + digit_value(s[i]));
    }
}

/// Unsigned decimal parsing, as `str::parse::<u64>` behaves: `Some` exactly
/// when the text is well-formed and the value fits.
pub fn parse_u64_chars(v: &Vec<char>) -> (r: Option<u64>)
    ensures
        match r {
            Some(x) => parse_uint_spec(v@) == Some(x as int),
            None => parse_uint_spec(v@) is None || parse_uint_spec(v@).unwrap() > u64::MAX,
        },
{
    let n: usize = v.len();
    let start: usize = if n > 0 && v[0] == '+' {
        1
    } else {
        0
    };
    let ghost t = if v@.len() > 0 && v@[0] == '+' {
        v@.drop_first()
    } else {
        v@
    };
    proof {
        assert(t =~= v@.skip(start as int));
    }
    if n == start {
        return None;
    }
    let mut acc: u64 = 0;
    let mut i: usize = start;
    while i < n
        invariant
            start <= i <= n,
            n == v@.len(),
            t == v@.skip(start as int),
            t.len() == n - start > 0,
            parse_uint_spec(v@) == (if all_digits(t) {
                Some(dec_val(t))
            } else {
                None::<int>
            }),
            all_digits(t.take(i - start)),
            acc == dec_val(t.take(i - start)),
        decreases n - i,
    {
        let c = v[i];
        if !('0' <= c && c <= '9') {
            proof {
                assert(t[i - start] == v@[i as int]);
                assert(!all_digits(t));
            }
            return None;
        }
        let d: u64 = ((c as u8) - 48) as u64;
        proof {
            assert(t.take(i - start + 1).drop_last() =~= t.take(i - start));
            assert(t.take(i - start + 1).last() == v@[i as int]);
            assert(d == digit_value(v@[i as int]));
        }
        if acc > u64::MAX / 10 || 10 * acc > u64::MAX - d {
            proof {
                let m = i - start;
                assert(dec_val(t.take(m + 1)) == acc * 10 + d);
                assert(dec_val(t.take(m + 1)) > u64::MAX);
                if all_digits(t) {
                    lemma_dec_val_prefix(t, m + 1);
                    assert(dec_val(t) > u64::MAX);
                }
            }
            return None;
        }
        acc = 10 * acc + d;
        i = i + 1;
        proof {
            assert(all_digits(t.take(i - start)));
        }
    }
    proof {
        assert(t.take(n - start) =~= t);
    }
    Some(acc)
}

/// Unsigned decimal parsing into `u32`, as `str::parse::<u32>` behaves.
pub fn parse_u32_chars(v: &Vec<char>) -> (r: Option<u32>)
    ensures
        match r {
            Some(x) => parse_uint_spec(v@) == Some(x as int),
            None => parse_uint_spec(v@) is None || parse_uint_spec(v@).unwrap() > u32::MAX,
        },
{
    match parse_u64_chars(v) {
        Some(x) => {
            if x <= u32::MAX as u64 {
                Some(x as u32)
            } else {
                None
            }
        },
        None => None,
    }
}

/// Unsigned decimal parsing into `usize`, as `str::parse::<usize>` behaves.
pub fn parse_usize_chars(v: &Vec<char>) -> (r: Option<usize>)
    ensures
        match r {
            Some(x) => parse_uint_spec(v@) == Some(x as int),
            None => parse_uint_spec(v@) is None || parse_uint_spec(v@).unwrap() > usize::MAX,
        },
{
    match parse_u64_chars(v) {
        Some(x) => {
            if x <= usize::MAX as u64 {
                Some(x as usize)
            } else {
                None
            }
        },
        None => None,
    }
}

/// Signed decimal parsing, as `str::parse::<i64>` behaves.
pub fn parse_i64_chars(v: &Vec<char>) -> (r: Option<i64>)
    ensures
        match r {
            Some(x) => parse_int_spec(v@) == Some(x as int),
            None => parse_int_spec(v@) is None || parse_int_spec(v@).unwrap() > i64::MAX
                || parse_int_spec(v@).unwrap() < i64::MIN,
        },
{
    if v.len() > 0 && v[0] == '-' {
        let rest = sub_chars(v, 1, v.len());
        proof {
            assert(rest@ =~= v@.drop_first());
        }
        if rest.len() > 0 && rest[0] == '+' {
            // A second sign character is not a digit, so parsing fails.
            proof {
                assert(!is_ascii_digit_char(rest@[0]));
            }
            return None;
        }
        match parse_u64_chars(&rest) {
            Some(x) => {
                proof {
                    assert(parse_uint_spec(rest@) == Some(x as int));
                    assert(rest@.len() > 0 && all_digits(rest@));
                }
                if x <= 9223372036854775807u64 {
                    Some(-(x as i64))
                } else if x == 9223372036854775808u64 {
                    Some(i64::MIN)
                } else {
                    None
                }
            },
            None => {
                proof {
                    let t = rest@;
                    if !(parse_int_spec(v@) is None) {
                        assert(t.len() > 0 && all_digits(t));
                        assert(parse_uint_spec(t) == Some(dec_val(t)));
                        assert(dec_val(t) > u64::MAX);
                        assert(parse_int_spec(v@).unwrap() == -dec_val(t) < i64::MIN);
                    }
                }
                None
            },
        }
    } else {
        match parse_u64_chars(v) {
            Some(x) => {
                if x <= i64::MAX as u64 {
                    Some(x as i64)
                } else {
                    None
                }
            },
            None => None,
        }
    }
}

// --- display helpers ---

/// At most this many characters are kept by `preview_text`.
pub const PREVIEW_LIMIT: usize = 120;

/// A short preview of `value`: trimmed, cut to the limit, with an ellipsis
/// appended when something was cut.
pub fn preview_text(value: &str) -> (r: String)
    ensures
        ({
            let t = trim_spaces_spec(value@);
            if t.len() <= PREVIEW_LIMIT {
                r@ == t
            } else {
                r@ == t.take(PREVIEW_LIMIT as int).push('\u{2026}')
            }
        }),
{
    let chars = str_chars(value);
    let trimmed = trim_spaces_chars(&chars);
    if trimmed.len() <= PREVIEW_LIMIT {
        chars_string(&trimmed)
    } else {
        let mut cut = sub_chars(&trimmed, 0, PREVIEW_LIMIT);
        cut.push('\u{2026}');
        proof {
            assert(cut@ =~= trim_spaces_spec(value@).take(PREVIEW_LIMIT as int).push('\u{2026}'));
        }
        chars_string(&cut)
    }
}

/// Cuts `text` to at most `max_words` words (at least one is always kept);
/// the flag says whether anything was cut. Texts within the limit are only
/// trimmed, keeping their inner spacing.
pub fn truncate_text(text: &str, max_words: usize) -> (r: (String, bool))
    ensures
        ({
            let ws = words_of(text@);
            if ws.len() == 0 {
                r.0@ == Seq::<char>::empty() && r.1 == false
            } else if ws.len() <= max_words {
                r.0@ == trim_spaces_spec(text@) && r.1 == false
            } else {
                r.0@ == join_with(ws.take(if max_words < 1 {
                    1int
                } else {
                    max_words as int
                }), ' ') && r.1 == true
            }
        }),
{
    let chars = str_chars(text);
    let mut words = split_words(&chars);
    if words.len() == 0 {
        let empty: Vec<char> = Vec::new();
        return (chars_string(&empty), false);
    }
    if words.len() <= max_words {
        let trimmed = trim_spaces_chars(&chars);
        return (chars_string(&trimmed), false);
    }
    let keep: usize = if max_words < 1 {
        1
    } else {
        max_words
    };
    let ghost full = words.deep_view();
    words.truncate(keep);
    proof {
        assert(words.deep_view() =~~= full.take(keep as int));
    }
    let joined = join_chars(&words, ' ');
    (chars_string(&joined), true)
}

} // verus!
