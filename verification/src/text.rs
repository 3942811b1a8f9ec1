//! Text primitives: whitespace tokenisation, trimming, case-insensitive
//! comparison and substring search.
//!
//! Every contract in the crate that talks about command text is stated over
//! the spec functions of this module, so that `Command::parse`, the rule
//! matchers and the ranking normalisation all agree on one notion of token
//! and one notion of trimmed text.

use vstd::prelude::*;
use vstd::string::StrSliceExecFns;
use vstd::string::StringExecFns;

verus! {

/// The whitespace alphabet used for tokenisation and trimming: space,
/// horizontal tab, line feed, vertical tab, form feed and carriage return.
pub open spec fn is_space_char(c: char) -> bool {
    c == ' ' || c == '\t' || c == '\n' || c == '\r' || c == '\u{b}' || c == '\u{c}'
}

/// Whether a text consists of whitespace only.
pub open spec fn all_space(s: Seq<char>) -> bool {
    forall|i: int| 0 <= i < s.len() ==> is_space_char(s[i])
}

/// The text with leading whitespace removed.
pub open spec fn trim_front(s: Seq<char>) -> Seq<char>
    decreases s.len(),
{
    if s.len() > 0 && is_space_char(s[0]) {
        trim_front(s.drop_first())
    } else {
        s
    }
}

/// The text with trailing whitespace removed.
pub open spec fn trim_back(s: Seq<char>) -> Seq<char>
    decreases s.len(),
{
    if s.len() > 0 && is_space_char(s.last()) {
        trim_back(s.drop_last())
    } else {
        s
    }
}

/// The text with leading and trailing whitespace removed.
pub open spec fn trimmed_of(s: Seq<char>) -> Seq<char> {
    trim_back(trim_front(s))
}

/// The whitespace-separated tokens of `s`, given a token `cur` already in
/// progress. Helper for [`tokens_of`].
pub open spec fn tokens_from(s: Seq<char>, cur: Seq<char>) -> Seq<Seq<char>>
    decreases s.len(),
{
    if s.len() == 0 {
        if cur.len() == 0 {
            Seq::empty()
        } else {
            seq![cur]
        }
    } else if is_space_char(s[0]) {
        if cur.len() == 0 {
            tokens_from(s.drop_first(), Seq::empty())
        } else {
            seq![cur] + tokens_from(s.drop_first(), Seq::empty())
        }
    } else {
        tokens_from(s.drop_first(), cur.push(s[0]))
    }
}

/// The whitespace-separated tokens of a text, in order.
pub open spec fn tokens_of(s: Seq<char>) -> Seq<Seq<char>> {
    tokens_from(s, Seq::empty())
}

/// The tokens after the first: the arguments of a command text.
pub open spec fn args_of(s: Seq<char>) -> Seq<Seq<char>> {
    if tokens_of(s).len() == 0 {
        Seq::empty()
    } else {
        tokens_of(s).drop_first()
    }
}

/// The views of a sequence of strings.
pub open spec fn views_of(v: Seq<String>) -> Seq<Seq<char>> {
    v.map_values(|s: String| s@)
}

/// The parts joined with a single space between consecutive parts.
pub open spec fn joined_with_spaces(parts: Seq<Seq<char>>) -> Seq<char>
    decreases parts.len(),
{
    if parts.len() == 0 {
        Seq::empty()
    } else if parts.len() == 1 {
        parts[0]
    } else {
        joined_with_spaces(parts.drop_last()) + seq![' '] + parts.last()
    }
}

/// The code point of `c`, with ASCII upper-case letters folded to lower case.
pub open spec fn lower_code(c: char) -> int {
    if 65 <= c as int && c as int <= 90 {
        c as int + 32
    } else {
        c as int
    }
}

/// Equality of two texts up to ASCII case.
pub open spec fn eq_nocase(a: Seq<char>, b: Seq<char>) -> bool {
    &&& a.len() == b.len()
    &&& forall|i: int| 0 <= i < a.len() ==> lower_code(a[i]) == lower_code(b[i])
}

/// `needle` occurs in `hay` starting at position `k`.
pub open spec fn contains_at(hay: Seq<char>, needle: Seq<char>, k: int) -> bool {
    &&& 0 <= k
    &&& k + needle.len() <= hay.len()
    &&& hay.subrange(k, k + needle.len() as int) == needle
}

/// `needle` occurs somewhere in `hay`.
pub open spec fn contains_seq(hay: Seq<char>, needle: Seq<char>) -> bool {
    exists|k: int| contains_at(hay, needle, k)
}

/// Whether `c` belongs to the whitespace alphabet.
pub fn is_space(c: char) -> (r: bool)
    ensures
        r == is_space_char(c),
{
    c == ' ' || c == '\t' || c == '\n' || c == '\r' || c == '\u{b}' || c == '\u{c}'
}

/// The whitespace-separated tokens of `s`, as owned strings.
pub fn tokenize(s: &str) -> (r: Vec<String>)
    ensures
        views_of(r@) == tokens_of(s@),
{
    let n: usize = s.unicode_len();
    let mut out: Vec<String> = Vec::new();
    let mut start: usize = 0;
    let mut in_token: bool = false;
    let mut i: usize = 0;
    proof {
        assert(s@.skip(0) =~= s@);
        assert(views_of(out@) =~= Seq::<Seq<char>>::empty());
        assert(views_of(out@) + tokens_from(s@, Seq::<char>::empty()) =~= tokens_of(s@));
    }
    while i < n
        invariant
            n == s@.len(),
            i <= n,
            in_token ==> start < i,
            views_of(out@) + tokens_from(
                s@.skip(i as int),
                if in_token {
                    s@.subrange(start as int, i as int)
                } else {
                    Seq::<char>::empty()
                },
            ) == tokens_of(s@),
        decreases n - i,
    {
        let ghost cur: Seq<char> = if in_token {
            s@.subrange(start as int, i as int)
        } else {
            Seq::<char>::empty()
        };
        proof {
            assert(s@.skip(i as int)[0] == s@[i as int]);
            assert(s@.skip(i as int).drop_first() =~= s@.skip(i as int + 1));
        }
        let c = s.get_char(i);
        if is_space(c) {
            if in_token {
                let tok = s.substring_char(start, i).to_owned();
                proof {
                    assert(tokens_from(s@.skip(i as int), cur) == seq![cur] + tokens_from(
                        s@.skip(i as int + 1),
                        Seq::<char>::empty(),
                    ));
                    assert(views_of(out@.push(tok)) =~= views_of(out@).push(cur));
                    assert(views_of(out@).push(cur) + tokens_from(
                        s@.skip(i as int + 1),
                        Seq::<char>::empty(),
                    ) =~= views_of(out@) + (seq![cur] + tokens_from(
                        s@.skip(i as int + 1),
                        Seq::<char>::empty(),
                    )));
                }
                out.push(tok);
                in_token = false;
            } else {
                proof {
                    assert(tokens_from(s@.skip(i as int), cur) == tokens_from(
                        s@.skip(i as int + 1),
                        Seq::<char>::empty(),
                    ));
                }
            }
        } else {
            if !in_token {
                start = i;
                in_token = true;
                proof {
                    assert(s@.subrange(i as int, i as int + 1) =~= Seq::<char>::empty().push(
                        s@[i as int],
                    ));
                }
            } else {
                proof {
                    assert(s@.subrange(start as int, i as int + 1) =~= cur.push(s@[i as int]));
                }
            }
        }
        i = i + 1;
    }
    if in_token {
        let tok = s.substring_char(start, n).to_owned();
        proof {
            let ghost cur = s@.subrange(start as int, n as int);
            assert(s@.skip(n as int) =~= Seq::<char>::empty());
            assert(tokens_from(s@.skip(n as int), cur) == seq![cur]);
            assert(views_of(out@.push(tok)) =~= views_of(out@).push(cur));
            assert(views_of(out@).push(cur) =~= views_of(out@) + seq![cur]);
        }
        out.push(tok);
    } else {
        proof {
            assert(s@.skip(n as int) =~= Seq::<char>::empty());
            assert(tokens_from(s@.skip(n as int), Seq::<char>::empty())
                == Seq::<Seq<char>>::empty());
            assert(views_of(out@) + Seq::<Seq<char>>::empty() =~= views_of(out@));
        }
    }
    out
}

/// The text with leading and trailing whitespace removed, as a slice of `s`.
pub fn trim_str(s: &str) -> (r: &str)
    ensures
        r@ == trimmed_of(s@),
{
    let n: usize = s.unicode_len();
    let mut a: usize = 0;
    while a < n && is_space(s.get_char(a))
        invariant
            n == s@.len(),
            a <= n,
            forall|j: int| 0 <= j < a ==> is_space_char(s@[j]),
        decreases n - a,
    {
        a = a + 1;
    }
    proof {
        lemma_trim_front_is_skip(s@, a as int);
    }
    if a == n {
        let r = s.substring_char(n, n);
        proof {
            assert(r@ =~= Seq::<char>::empty());
            assert(trim_front(s@) =~= Seq::<char>::empty());
        }
        r
    } else {
        let mut b: usize = n;
        while b > a && is_space(s.get_char(b - 1))
            invariant
                n == s@.len(),
                a <= b <= n,
                a < n,
                !is_space_char(s@[a as int]),
                forall|j: int| b <= j < n ==> is_space_char(s@[j]),
            decreases b,
        {
            b = b - 1;
        }
        proof {
            let t = s@.skip(a as int);
            assert(t[0] == s@[a as int]);
            assert(forall|j: int| b - a <= j < t.len() ==> t[j] == s@[j + a]
                && is_space_char(t[j]));
            if b - a > 0 {
                assert(t[b - a - 1] == s@[b as int - 1]);
            }
            lemma_trim_back_is_take(t, b as int - a as int);
            assert(t.take(b as int - a as int) =~= s@.subrange(a as int, b as int));
        }
        s.substring_char(a, b)
    }
}

/// When the first `a` characters are whitespace and position `a` (if it
/// exists) is not, trimming the front drops exactly those `a` characters.
proof fn lemma_trim_front_is_skip(s: Seq<char>, a: int)
    requires
        0 <= a <= s.len(),
        forall|j: int| 0 <= j < a ==> is_space_char(s[j]),
        a == s.len() || !is_space_char(s[a]),
    ensures
        trim_front(s) == s.skip(a),
    decreases a,
{
    if a == 0 {
        assert(s.skip(0) =~= s);
    } else {
        assert(is_space_char(s[0]));
        let t = s.drop_first();
        assert(forall|j: int| 0 <= j < a - 1 ==> t[j] == s[j + 1] && is_space_char(t[j]));
        if a - 1 < t.len() {
            assert(t[a - 1] == s[a]);
        }
        lemma_trim_front_is_skip(t, a - 1);
        assert(t.skip(a - 1) =~= s.skip(a));
    }
}

/// When the characters from position `k` on are whitespace and position
/// `k - 1` (if it exists) is not, trimming the back keeps exactly the first
/// `k` characters.
proof fn lemma_trim_back_is_take(s: Seq<char>, k: int)
    requires
        0 <= k <= s.len(),
        forall|j: int| k <= j < s.len() ==> is_space_char(s[j]),
        k == 0 || !is_space_char(s[k - 1]),
    ensures
        trim_back(s) == s.take(k),
    decreases s.len(),
{
    if k == s.len() {
        if s.len() > 0 {
            assert(s.last() == s[k - 1]);
            assert(!is_space_char(s.last()));
        }
        assert(s.take(k) =~= s);
    } else {
        assert(is_space_char(s.last()));
        let t = s.drop_last();
        assert(forall|j: int| k <= j < t.len() ==> t[j] == s[j] && is_space_char(t[j]));
        if k > 0 {
            assert(t[k - 1] == s[k - 1]);
        }
        lemma_trim_back_is_take(t, k);
        assert(t.take(k) =~= s.take(k));
    }
}

/// Exact equality of two string slices.
pub fn str_eq(a: &str, b: &str) -> (r: bool)
    ensures
        r == (a@ == b@),
{
    let an: usize = a.unicode_len();
    let bn: usize = b.unicode_len();
    if an != bn {
        return false;
    }
    let mut i: usize = 0;
    while i < an
        invariant
            an == a@.len(),
            an == b@.len(),
            i <= an,
            forall|j: int| 0 <= j < i ==> a@[j] == b@[j],
        decreases an - i,
    {
        if a.get_char(i) != b.get_char(i) {
            return false;
        }
        i = i + 1;
    }
    proof {
        assert(a@ =~= b@);
    }
    true
}

/// The ASCII-lower-cased code point of a character.
fn char_lower_code(c: char) -> (r: u32)
    ensures
        r as int == lower_code(c),
{
    let u = c as u32;
    if 65 <= u && u <= 90 {
        u + 32
    } else {
        u
    }
}

/// Equality of two string slices up to ASCII case.
pub fn str_eq_nocase(a: &str, b: &str) -> (r: bool)
    ensures
        r == eq_nocase(a@, b@),
{
    let an: usize = a.unicode_len();
    let bn: usize = b.unicode_len();
    if an != bn {
        return false;
    }
    let mut i: usize = 0;
    while i < an
        invariant
            an == a@.len(),
            an == b@.len(),
            i <= an,
            forall|j: int| 0 <= j < i ==> lower_code(a@[j]) == lower_code(b@[j]),
        decreases an - i,
    {
        if char_lower_code(a.get_char(i)) != char_lower_code(b.get_char(i)) {
            return false;
        }
        i = i + 1;
    }
    true
}

/// Whether `needle` occurs as a contiguous substring of `hay`.
pub fn str_contains(hay: &str, needle: &str) -> (r: bool)
    ensures
        r == contains_seq(hay@, needle@),
{
    let hn: usize = hay.unicode_len();
    let nn: usize = needle.unicode_len();
    if nn > hn {
        proof {
            assert(forall|k: int| !contains_at(hay@, needle@, k));
        }
        return false;
    }
    if nn == 0 {
        proof {
            assert(hay@.subrange(0, 0) =~= needle@);
            assert(contains_at(hay@, needle@, 0));
        }
        return true;
    }
    let mut k: usize = 0;
    while k <= hn - nn
        invariant
            hn == hay@.len(),
            nn == needle@.len(),
            1 <= nn <= hn,
            k <= hn - nn + 1,
            forall|k2: int| 0 <= k2 < k ==> !contains_at(hay@, needle@, k2),
        decreases hn - nn - k + 1,
    {
        let mut j: usize = 0;
        let mut candidate = true;
        while j < nn
            invariant
                hn == hay@.len(),
                nn == needle@.len(),
                k + nn <= hn,
                j <= nn,
                candidate ==> forall|j2: int| 0 <= j2 < j ==> hay@[k + j2] == needle@[j2],
                !candidate ==> !contains_at(hay@, needle@, k as int),
            decreases nn - j,
        {
            if hay.get_char(k + j) != needle.get_char(j) {
                proof {
                    let sub = hay@.subrange(k as int, k as int + nn as int);
                    assert(sub[j as int] == hay@[k + j]);
                    assert(sub != needle@);
                }
                candidate = false;
                j = nn;
            } else {
                j = j + 1;
            }
        }
        if candidate {
            proof {
                assert(hay@.subrange(k as int, k as int + nn as int) =~= needle@);
                assert(contains_at(hay@, needle@, k as int));
            }
            return true;
        }
        k = k + 1;
    }
    proof {
        assert(forall|k2: int| contains_at(hay@, needle@, k2) ==> 0 <= k2 <= hn - nn);
        assert(forall|k2: int| !contains_at(hay@, needle@, k2));
    }
    false
}

/// A copy of a vector of strings, equal element by element.
pub fn clone_string_vec(v: &Vec<String>) -> (r: Vec<String>)
    ensures
        r@ == v@,
{
    let mut r: Vec<String> = Vec::new();
    let mut i: usize = 0;
    while i < v.len()
        invariant
            i <= v@.len(),
            r@ =~= v@.take(i as int),
        decreases v@.len() - i,
    {
        r.push(v[i].clone());
        i = i + 1;
    }
    proof {
        assert(v@.take(v@.len() as int) =~= v@);
    }
    r
}

/// The strings joined with a single space between consecutive parts.
pub fn join_with_spaces(parts: &Vec<String>) -> (r: String)
    ensures
        r@ == joined_with_spaces(views_of(parts@)),
{
    let mut r = String::new();
    let mut i: usize = 0;
    while i < parts.len()
        invariant
            i <= parts@.len(),
            r@ == joined_with_spaces(views_of(parts@).take(i as int)),
        decreases parts@.len() - i,
    {
        if i > 0 {
            r.append(" ");
            proof {
                reveal_strlit(" ");
                assert(" "@ =~= seq![' ']);
            }
        }
        r.append(parts[i].as_str());
        proof {
            let vs = views_of(parts@);
            assert(vs.take(i as int + 1).drop_last() =~= vs.take(i as int));
            assert(vs.take(i as int + 1).last() == parts@[i as int]@);
        }
        i = i + 1;
    }
    proof {
        assert(views_of(parts@).take(parts@.len() as int) =~= views_of(parts@));
    }
    r
}

/// A text made of whitespace has no tokens; helper for
/// [`lemma_tokens_empty_iff_all_space`].
proof fn lemma_tokens_from_all_space(s: Seq<char>)
    requires
        all_space(s),
    ensures
        tokens_from(s, Seq::empty()) == Seq::<Seq<char>>::empty(),
    decreases s.len(),
{
    if s.len() > 0 {
        assert(is_space_char(s[0]));
        assert(all_space(s.drop_first())) by {
            assert(forall|j: int| 0 <= j < s.drop_first().len() ==> s.drop_first()[j] == s[j + 1]);
        }
        lemma_tokens_from_all_space(s.drop_first());
    }
}

/// A text with a non-whitespace character has at least one token; helper for
/// [`lemma_tokens_empty_iff_all_space`].
proof fn lemma_tokens_from_nonempty(s: Seq<char>, cur: Seq<char>)
    requires
        cur.len() > 0 || !all_space(s),
    ensures
        tokens_from(s, cur).len() > 0,
    decreases s.len(),
{
    if s.len() == 0 {
    } else if is_space_char(s[0]) {
        if cur.len() == 0 {
            assert(!all_space(s.drop_first())) by {
                let w = choose|i: int| 0 <= i < s.len() && !is_space_char(s[i]);
                assert(s.drop_first()[w - 1] == s[w]);
            }
            lemma_tokens_from_nonempty(s.drop_first(), Seq::empty());
        }
    } else {
        lemma_tokens_from_nonempty(s.drop_first(), cur.push(s[0]));
    }
}

/// A command text has no tokens exactly when it is whitespace only.
pub proof fn lemma_tokens_empty_iff_all_space(s: Seq<char>)
    ensures
        tokens_of(s).len() == 0 <==> all_space(s),
{
    if all_space(s) {
        lemma_tokens_from_all_space(s);
    } else {
        lemma_tokens_from_nonempty(s, Seq::empty());
    }
}

/// The trimmed text is empty exactly when the text is whitespace only.
pub proof fn lemma_trimmed_empty_iff_all_space(s: Seq<char>)
    ensures
        trimmed_of(s).len() == 0 <==> all_space(s),
{
    lemma_trim_front_all_space(s);
    lemma_trim_back_all_space(trim_front(s));
}

/// Trimming the front yields the empty text exactly when the text is
/// whitespace only, and preserves the whitespace-only property.
proof fn lemma_trim_front_all_space(s: Seq<char>)
    ensures
        trim_front(s).len() == 0 <==> all_space(s),
        all_space(trim_front(s)) <==> all_space(s),
    decreases s.len(),
{
    if s.len() > 0 && is_space_char(s[0]) {
        let t = s.drop_first();
        assert(forall|j: int| 0 <= j < t.len() ==> t[j] == s[j + 1]);
        lemma_trim_front_all_space(t);
        if all_space(t) {
            assert forall|j: int| 0 <= j < s.len() implies is_space_char(s[j]) by {
                if j > 0 {
                    assert(is_space_char(t[j - 1]));
                }
            }
        }
    }
}

/// Trimming the back yields the empty text exactly when the text is
/// whitespace only.
proof fn lemma_trim_back_all_space(s: Seq<char>)
    ensures
        trim_back(s).len() == 0 <==> all_space(s),
    decreases s.len(),
{
    if s.len() > 0 && is_space_char(s.last()) {
        let t = s.drop_last();
        assert(forall|j: int| 0 <= j < t.len() ==> t[j] == s[j]);
        lemma_trim_back_all_space(t);
        if all_space(t) {
            assert forall|j: int| 0 <= j < s.len() implies is_space_char(s[j]) by {
                if j < s.len() - 1 {
                    assert(is_space_char(t[j]));
                } else {
                    assert(s[j] == s.last());
                }
            }
        }
    }
}

} // verus!
