use vstd::prelude::*;

verus! {

/// The characters with the Unicode `White_Space` property, which is what
/// `char::is_whitespace`, `str::trim` and `str::split_whitespace` go by.
pub open spec fn is_white_space(c: char) -> bool {
    let u = c as u32;
    (0x09 <= u && u <= 0x0D) || u == 0x20 || u == 0x85 || u == 0xA0 || u == 0x1680
        || (0x2000 <= u && u <= 0x200A) || u == 0x2028 || u == 0x2029 || u == 0x202F
        || u == 0x205F || u == 0x3000
}

/// Number of leading white-space characters of `s`.
pub open spec fn leading_ws(s: Seq<char>) -> nat
    decreases s.len(),
{
    if s.len() > 0 && is_white_space(s[0]) {
        1 + leading_ws(s.drop_first())
    } else {
        0
    }
}

/// Number of trailing white-space characters of `s`.
pub open spec fn trailing_ws(s: Seq<char>) -> nat
    decreases s.len(),
{
    if s.len() > 0 && is_white_space(s.last()) {
        1 + trailing_ws(s.drop_last())
    } else {
        0
    }
}

/// `s` with leading and trailing white space removed.
pub open spec fn trimmed(s: Seq<char>) -> Seq<char> {
    let t = s.skip(leading_ws(s) as int);
    t.take(t.len() - trailing_ws(t))
}

/// ASCII lower-casing of one character: `A..=Z` map to `a..=z`, all else is kept.
pub open spec fn ascii_lower_char(c: char) -> char {
    if 'A' <= c && c <= 'Z' {
        ((c as u8) + 32) as char
    } else {
        c
    }
}

/// ASCII lower-casing of a character sequence.
pub open spec fn ascii_lower(s: Seq<char>) -> Seq<char> {
    Seq::new(s.len(), |i: int| ascii_lower_char(s[i]))
}

/// ASCII upper-casing of one character: `a..=z` map to `A..=Z`, all else is kept.
pub open spec fn ascii_upper_char(c: char) -> char {
    if 'a' <= c && c <= 'z' {
        ((c as u8) - 32) as char
    } else {
        c
    }
}

/// ASCII upper-casing of a character sequence.
pub open spec fn ascii_upper(s: Seq<char>) -> Seq<char> {
    Seq::new(s.len(), |i: int| ascii_upper_char(s[i]))
}

/// Every character of `s` is ASCII.
pub open spec fn is_ascii_text(s: Seq<char>) -> bool {
    forall|i: int| 0 <= i < s.len() ==> (#[trigger] s[i] as u32) < 128
}

proof fn lemma_case_char(c: char)
    ensures
        is_white_space(ascii_upper_char(c)) == is_white_space(c),
        ascii_upper_char(ascii_lower_char(c)) == ascii_upper_char(c),
        ascii_upper_char(ascii_upper_char(c)) == ascii_upper_char(c),
        (c as u32) < 128 ==> (ascii_lower_char(c) as u32) < 128 && (ascii_upper_char(c) as u32) < 128,
{
    if 'a' <= c && c <= 'z' {
        assert(97 <= (c as u8) <= 122);
    }
    if 'A' <= c && c <= 'Z' {
        assert(65 <= (c as u8) <= 90);
    }
}

/// Upper-casing ASCII letters commutes with trimming: letters are no white space.
pub proof fn lemma_trimmed_ascii_upper(s: Seq<char>)
    ensures
        trimmed(ascii_upper(s)) == ascii_upper(trimmed(s)),
{
    let u = ascii_upper(s);
    assert forall|k: int| 0 <= k < s.len() implies is_white_space(#[trigger] u[k]) == is_white_space(s[k]) by {
        lemma_case_char(s[k]);
    }
    lemma_leading_ws_bound(s);
    let i = leading_ws(s) as int;
    assert forall|k: int| 0 <= k < i implies is_white_space(#[trigger] u[k]) by {
        assert(is_white_space(s[k]));
    }
    lemma_leading_ws_step(u, i);
    let t = s.skip(i);
    let tu = u.skip(i);
    assert(tu =~= ascii_upper(t));
    lemma_trailing_ws_bound(t);
    let j = t.len() - trailing_ws(t);
    assert forall|k: int| j <= k < tu.len() implies is_white_space(#[trigger] tu[k]) by {
        assert(is_white_space(t[k]));
        lemma_case_char(t[k]);
    }
    if j > 0 {
        lemma_case_char(t[j - 1]);
    }
    lemma_trailing_ws_step(tu, j);
    assert(trimmed(u) =~= ascii_upper(trimmed(s)));
}

/// Trimming twice is trimming once.
pub proof fn lemma_trimmed_idempotent(s: Seq<char>)
    ensures
        trimmed(trimmed(s)) == trimmed(s),
{
    let r = trimmed(s);
    lemma_leading_ws_bound(s);
    let i = leading_ws(s) as int;
    let t = s.skip(i);
    lemma_trailing_ws_bound(t);
    if r.len() > 0 {
        assert(r[0] == s[i]);
        assert(r[r.len() - 1] == t[t.len() - trailing_ws(t) - 1]);
    }
    lemma_leading_ws_step(r, 0);
    lemma_trailing_ws_step(r, r.len() as int);
    assert(trimmed(r) =~= r);
}

/// Lower- or upper-casing ASCII letters first does not change the upper-cased text,
/// and ASCII text stays ASCII under both and under trimming.
pub proof fn lemma_ascii_case_folding(s: Seq<char>)
    ensures
        ascii_upper(ascii_lower(s)) == ascii_upper(s),
        ascii_upper(ascii_upper(s)) == ascii_upper(s),
        is_ascii_text(s) ==> is_ascii_text(ascii_lower(s)) && is_ascii_text(ascii_upper(s)) && is_ascii_text(
            trimmed(s),
        ),
{
    assert forall|k: int| 0 <= k < s.len() implies #[trigger] ascii_upper(ascii_lower(s))[k] == ascii_upper(s)[k]
        && ascii_upper(ascii_upper(s))[k] == ascii_upper(s)[k] by {
        lemma_case_char(s[k]);
    }
    assert(ascii_upper(ascii_lower(s)) =~= ascii_upper(s));
    assert(ascii_upper(ascii_upper(s)) =~= ascii_upper(s));
    if is_ascii_text(s) {
        assert forall|k: int| 0 <= k < s.len() implies (#[trigger] ascii_lower(s)[k] as u32) < 128 && (
        ascii_upper(s)[k] as u32) < 128 by {
            lemma_case_char(s[k]);
        }
        let t = trimmed(s);
        lemma_leading_ws_bound(s);
        let t0 = s.skip(leading_ws(s) as int);
        lemma_trailing_ws_bound(t0);
        assert forall|k: int| 0 <= k < t.len() implies (#[trigger] t[k] as u32) < 128 by {
            assert(t[k] == s[k + leading_ws(s)]);
        }
    }
}

/// `needle` occurs in `hay` as a contiguous block.
pub open spec fn occurs_in(hay: Seq<char>, needle: Seq<char>) -> bool {
    exists|i: int| 0 <= i && i + needle.len() <= hay.len() && #[trigger] hay.subrange(i, i + needle.len()) == needle
}

/// Returns the characters of `s` in order.
pub fn chars_of(s: &str) -> (v: Vec<char>)
    ensures
        v@ == s@,
{
    let mut v: Vec<char> = Vec::new();
    for c in it: s.chars()
        invariant
            v@ == it.seq().take(it.index()),
    {
        v.push(c);
    }
    v
}

/// Builds a `String` from a sequence of characters (std `FromIterator<char>` for `String`).
#[verifier::external_body]
pub(crate) fn string_from_chars(v: &Vec<char>) -> (s: String)
    ensures
        s@ == v@,
{
    v.iter().collect::<String>()
}

/// Builds a `String` holding the characters of a string slice.
pub fn string_of(s: &str) -> (r: String)
    ensures
        r@ == s@,
{
    let v = chars_of(s);
    string_from_chars(&v)
}

/// Returns `true` if `c` has the Unicode `White_Space` property.
pub fn is_white_space_char(c: char) -> (r: bool)
    ensures
        r == is_white_space(c),
{
    let u = c as u32;
    (0x09 <= u && u <= 0x0D) || u == 0x20 || u == 0x85 || u == 0xA0 || u == 0x1680
        || (0x2000 <= u && u <= 0x200A) || u == 0x2028 || u == 0x2029 || u == 0x202F
        || u == 0x205F || u == 0x3000
}

proof fn lemma_leading_ws_bound(s: Seq<char>)
    ensures
        leading_ws(s) <= s.len(),
        forall|k: int| 0 <= k < leading_ws(s) ==> is_white_space(#[trigger] s[k]),
        leading_ws(s) < s.len() ==> !is_white_space(s[leading_ws(s) as int]),
    decreases s.len(),
{
    if s.len() > 0 && is_white_space(s[0]) {
        lemma_leading_ws_bound(s.drop_first());
        assert forall|k: int| 0 <= k < leading_ws(s) implies is_white_space(#[trigger] s[k]) by {
            if k > 0 {
                assert(s[k] == s.drop_first()[k - 1]);
            }
        }
    }
}

proof fn lemma_trailing_ws_bound(s: Seq<char>)
    ensures
        trailing_ws(s) <= s.len(),
        forall|k: int| s.len() - trailing_ws(s) <= k < s.len() ==> is_white_space(#[trigger] s[k]),
        trailing_ws(s) < s.len() ==> !is_white_space(s[s.len() - trailing_ws(s) - 1]),
    decreases s.len(),
{
    if s.len() > 0 && is_white_space(s.last()) {
        lemma_trailing_ws_bound(s.drop_last());
        assert forall|k: int| s.len() - trailing_ws(s) <= k < s.len() implies is_white_space(#[trigger] s[k]) by {
            if k < s.len() - 1 {
                assert(s[k] == s.drop_last()[k]);
            }
        }
    }
}

proof fn lemma_leading_ws_step(s: Seq<char>, i: int)
    requires
        0 <= i <= s.len(),
        forall|k: int| 0 <= k < i ==> is_white_space(#[trigger] s[k]),
        i == s.len() || !is_white_space(s[i]),
    ensures
        leading_ws(s) == i,
    decreases s.len(),
{
    if i > 0 {
        assert(is_white_space(s[0]));
        assert forall|k: int| 0 <= k < i - 1 implies is_white_space(#[trigger] s.drop_first()[k]) by {
            assert(s.drop_first()[k] == s[k + 1]);
        }
        if i < s.len() {
            assert(s.drop_first()[i - 1] == s[i]);
        }
        lemma_leading_ws_step(s.drop_first(), i - 1);
    } else {
        if s.len() > 0 {
            assert(!is_white_space(s[0]));
        }
    }
}

proof fn lemma_trailing_ws_step(s: Seq<char>, j: int)
    requires
        0 <= j <= s.len(),
        forall|k: int| j <= k < s.len() ==> is_white_space(#[trigger] s[k]),
        j == 0 || !is_white_space(s[j - 1]),
    ensures
        trailing_ws(s) == s.len() - j,
    decreases s.len(),
{
    if j < s.len() {
        assert(is_white_space(s.last()));
        assert forall|k: int| j <= k < s.len() - 1 implies is_white_space(#[trigger] s.drop_last()[k]) by {
            assert(s.drop_last()[k] == s[k]);
        }
        if j > 0 {
            assert(s.drop_last()[j - 1] == s[j - 1]);
        }
        lemma_trailing_ws_step(s.drop_last(), j);
    } else {
        if s.len() > 0 {
            assert(!is_white_space(s.last()));
        }
    }
}

/// Removes leading and trailing white space (the behaviour of `str::trim`).
pub fn trim_chars(s: &Vec<char>) -> (r: Vec<char>)
    ensures
        r@ == trimmed(s@),
{
    let n = s.len();
    let mut i: usize = 0;
    while i < n && is_white_space_char(s[i])
        invariant
            i <= n,
            n == s.len(),
            forall|k: int| 0 <= k < i ==> is_white_space(#[trigger] s@[k]),
        decreases n - i,
    {
        i += 1;
    }
    proof {
        lemma_leading_ws_step(s@, i as int);
    }
    let mut j: usize = n;
    while j > i && is_white_space_char(s[j - 1])
        invariant
            i <= j <= n,
            n == s.len(),
            forall|k: int| j <= k < n ==> is_white_space(#[trigger] s@[k]),
        decreases j,
    {
        j -= 1;
    }
    let ghost t = s@.skip(i as int);
    proof {
        assert forall|k: int| j - i <= k < t.len() implies is_white_space(#[trigger] t[k]) by {
            assert(t[k] == s@[k + i]);
        }
        if j > i {
            assert(t[j - i - 1] == s@[j - 1]);
        }
        lemma_trailing_ws_step(t, j - i);
    }
    let mut r: Vec<char> = Vec::new();
    let mut k: usize = i;
    while k < j
        invariant
            i <= k <= j <= n,
            n == s.len(),
            r@ == s@.subrange(i as int, k as int),
        decreases j - k,
    {
        r.push(s[k]);
        k += 1;
    }
    assert(r@ =~= t.take(t.len() - trailing_ws(t)));
    r
}

/// ASCII lower-casing (the behaviour of `str::to_ascii_lowercase`).
pub fn ascii_lower_chars(s: &Vec<char>) -> (r: Vec<char>)
    ensures
        r@ == ascii_lower(s@),
{
    let mut r: Vec<char> = Vec::new();
    let mut i: usize = 0;
    while i < s.len()
        invariant
            i <= s.len(),
            r@ =~= ascii_lower(s@).take(i as int),
        decreases s.len() - i,
    {
        let c = s[i];
        let d = if 'A' <= c && c <= 'Z' {
            ((c as u8) + 32) as char
        } else {
            c
        };
        r.push(d);
        i += 1;
    }
    assert(r@ =~= ascii_lower(s@));
    r
}

/// Returns `true` if the two character sequences are equal.
pub fn chars_equal(a: &Vec<char>, b: &Vec<char>) -> (r: bool)
    ensures
        r == (a@ == b@),
{
    if a.len() != b.len() {
        return false;
    }
    let mut i: usize = 0;
    while i < a.len()
        invariant
            i <= a.len(),
            a.len() == b.len(),
            a@.take(i as int) == b@.take(i as int),
        decreases a.len() - i,
    {
        if a[i] != b[i] {
            assert(a@[i as int] != b@[i as int]);
            return false;
        }
        assert(a@.take(i + 1) =~= a@.take(i as int).push(a@[i as int]));
        assert(b@.take(i + 1) =~= b@.take(i as int).push(b@[i as int]));
        i += 1;
    }
    assert(a@ =~= a@.take(a.len() as int));
    assert(b@ =~= b@.take(b.len() as int));
    true
}

/// Returns `true` if `needle` occurs in `hay` as a contiguous block (`str::contains`).
pub fn contains_chars(hay: &Vec<char>, needle: &Vec<char>) -> (r: bool)
    ensures
        r == occurs_in(hay@, needle@),
{
    if needle.len() > hay.len() {
        return false;
    }
    let last = hay.len() - needle.len();
    let mut i: usize = 0;
    while i <= last
        invariant
            last == hay.len() - needle.len(),
            needle.len() <= hay.len(),
            forall|p: int| 0 <= p < i ==> #[trigger] hay@.subrange(p, p + needle.len()) != needle@,
        decreases last + 1 - i,
    {
        let mut k: usize = 0;
        while k < needle.len() && hay[i + k] == needle[k]
            invariant
                i <= last,
                last == hay.len() - needle.len(),
                k <= needle.len(),
                forall|q: int| 0 <= q < k ==> hay@[i + q] == needle@[q],
            decreases needle.len() - k,
        {
            k += 1;
        }
        if k == needle.len() {
            assert(hay@.subrange(i as int, i + needle.len()) =~= needle@);
            return true;
        }
        assert(hay@.subrange(i as int, i + needle.len())[k as int] != needle@[k as int]);
        i += 1;
    }
    false
}

} // verus!

verus! {

/// Number of leading characters of `s` that are not white space.
pub open spec fn leading_non_ws(s: Seq<char>) -> nat
    decreases s.len(),
{
    if s.len() > 0 && !is_white_space(s[0]) {
        1 + leading_non_ws(s.drop_first())
    } else {
        0
    }
}

/// The leading run of non-white-space characters lies within `s`, holds no white space
/// and is followed by white space or the end of `s`.
pub proof fn lemma_leading_non_ws_bound(s: Seq<char>)
    ensures
        leading_non_ws(s) <= s.len(),
        forall|k: int| 0 <= k < leading_non_ws(s) ==> !is_white_space(#[trigger] s[k]),
        leading_non_ws(s) < s.len() ==> is_white_space(s[leading_non_ws(s) as int]),
        s.len() > 0 && !is_white_space(s[0]) ==> leading_non_ws(s) >= 1,
    decreases s.len(),
{
    if s.len() > 0 && !is_white_space(s[0]) {
        lemma_leading_non_ws_bound(s.drop_first());
        assert forall|k: int| 0 <= k < leading_non_ws(s) implies !is_white_space(#[trigger] s[k]) by {
            if k > 0 {
                assert(s[k] == s.drop_first()[k - 1]);
            }
        }
    }
}

proof fn lemma_leading_non_ws_step(s: Seq<char>, i: int)
    requires
        0 <= i <= s.len(),
        forall|k: int| 0 <= k < i ==> !is_white_space(#[trigger] s[k]),
        i == s.len() || is_white_space(s[i]),
    ensures
        leading_non_ws(s) == i,
    decreases s.len(),
{
    if i > 0 {
        assert(!is_white_space(s[0]));
        assert forall|k: int| 0 <= k < i - 1 implies !is_white_space(#[trigger] s.drop_first()[k]) by {
            assert(s.drop_first()[k] == s[k + 1]);
        }
        if i < s.len() {
            assert(s.drop_first()[i - 1] == s[i]);
        }
        lemma_leading_non_ws_step(s.drop_first(), i - 1);
    } else {
        if s.len() > 0 {
            assert(is_white_space(s[0]));
        }
    }
}

/// The maximal runs of non-white-space characters of `s`, in order: the words that
/// `str::split_whitespace` yields.
pub open spec fn words_of(s: Seq<char>) -> Seq<Seq<char>>
    decreases s.len(),
{
    let t = s.skip(leading_ws(s) as int);
    if leading_ws(s) > s.len() || t.len() == 0 {
        Seq::empty()
    } else {
        let n = leading_non_ws(t);
        if n == 0 || n > t.len() {
            Seq::empty()
        } else {
            seq![t.take(n as int)] + words_of(t.skip(n as int))
        }
    }
}

/// Splits `s` into its maximal runs of non-white-space characters (the behaviour of
/// `str::split_whitespace`).
pub fn split_words(s: &str) -> (r: Vec<String>)
    ensures
        r@.len() == words_of(s@).len(),
        forall|k: int| 0 <= k < r@.len() ==> #[trigger] r@[k]@ == words_of(s@)[k],
{
    let cs = chars_of(s);
    let n = cs.len();
    let mut out: Vec<String> = Vec::new();
    let ghost mut done: Seq<Seq<char>> = Seq::empty();
    let mut i: usize = 0;
    proof {
        assert(cs@.skip(0) =~= cs@);
    }
    while i < n
        invariant
            i <= n,
            n == cs.len(),
            out@.len() == done.len(),
            forall|k: int| 0 <= k < out@.len() ==> #[trigger] out@[k]@ == done[k],
            done + words_of(cs@.skip(i as int)) == words_of(cs@),
        decreases n - i,
    {
        let ghost rest = cs@.skip(i as int);
        let mut j: usize = i;
        while j < n && is_white_space_char(cs[j])
            invariant
                i <= j <= n,
                n == cs.len(),
                forall|k: int| i <= k < j ==> is_white_space(#[trigger] cs@[k]),
            decreases n - j,
        {
            j += 1;
        }
        proof {
            assert forall|k: int| 0 <= k < j - i implies is_white_space(#[trigger] rest[k]) by {
                assert(rest[k] == cs@[k + i]);
            }
            if j < n {
                assert(rest[j - i] == cs@[j as int]);
            }
            lemma_leading_ws_step(rest, j - i);
            assert(rest.skip(j - i) =~= cs@.skip(j as int));
        }
        if j == n {
            proof {
                assert(words_of(rest) =~= Seq::<Seq<char>>::empty());
                assert(done + words_of(cs@.skip(n as int)) =~= done);
            }
            i = j;
        } else {
            let mut k: usize = j;
            let mut word: Vec<char> = Vec::new();
            while k < n && !is_white_space_char(cs[k])
                invariant
                    j <= k <= n,
                    n == cs.len(),
                    forall|q: int| j <= q < k ==> !is_white_space(#[trigger] cs@[q]),
                    word@ == cs@.subrange(j as int, k as int),
                decreases n - k,
            {
                word.push(cs[k]);
                k += 1;
            }
            let ghost t = cs@.skip(j as int);
            proof {
                assert forall|q: int| 0 <= q < k - j implies !is_white_space(#[trigger] t[q]) by {
                    assert(t[q] == cs@[q + j]);
                }
                if k < n {
                    assert(t[k - j] == cs@[k as int]);
                }
                lemma_leading_non_ws_step(t, k - j);
                assert(t.take(k - j) =~= word@);
                assert(t.skip(k - j) =~= cs@.skip(k as int));
                assert(words_of(rest) == seq![word@] + words_of(cs@.skip(k as int)));
                assert(done.push(word@) + words_of(cs@.skip(k as int)) =~= done + words_of(rest));
            }
            out.push(string_from_chars(&word));
            proof {
                done = done.push(word@);
            }
            i = k;
        }
    }
    proof {
        assert(cs@.skip(n as int) =~= Seq::<char>::empty());
        assert(words_of(cs@.skip(n as int)) =~= Seq::<Seq<char>>::empty());
        assert(done =~= words_of(cs@));
    }
    out
}

} // verus!
