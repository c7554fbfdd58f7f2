//! String primitives from std, with their documented behaviour.
use vstd::prelude::*;

verus! {

/// Whether `c` has the Unicode `White_Space` property, the predicate that
/// `char::is_whitespace` computes and that `str::trim` strips by: tab to
/// carriage return, space, next line, no-break space, ogham space mark, the
/// spaces U+2000 to U+200A, line and paragraph separator, narrow no-break
/// space, medium mathematical space and ideographic space.
pub open spec fn unicode_white_space(c: char) -> bool {
    let u = c as u32;
    ||| 0x09 <= u <= 0x0D
    ||| u == 0x20
    ||| u == 0x85
    ||| u == 0xA0
    ||| u == 0x1680
    ||| 0x2000 <= u <= 0x200A
    ||| u == 0x2028
    ||| u == 0x2029
    ||| u == 0x202F
    ||| u == 0x205F
    ||| u == 0x3000
}

/// Every char of `s` is whitespace.
pub open spec fn all_white_space(s: Seq<char>) -> bool {
    forall|i: int| 0 <= i < s.len() ==> unicode_white_space(#[trigger] s[i])
}

/// `s` with its leading whitespace removed.
pub open spec fn trim_start_ws(s: Seq<char>) -> Seq<char>
    decreases s.len(),
{
    if s.len() > 0 && unicode_white_space(s[0]) {
        trim_start_ws(s.drop_first())
    } else {
        s
    }
}

/// `s` with its trailing whitespace removed.
pub open spec fn trim_end_ws(s: Seq<char>) -> Seq<char>
    decreases s.len(),
{
    if s.len() > 0 && unicode_white_space(s.last()) {
        trim_end_ws(s.drop_last())
    } else {
        s
    }
}

/// `s` with leading and trailing whitespace removed.
pub open spec fn trim_ws(s: Seq<char>) -> Seq<char> {
    trim_end_ws(trim_start_ws(s))
}

/// Calls `str::trim`, which "returns a string slice with leading and trailing
/// whitespace removed", whitespace being the Unicode `White_Space` property;
/// the contract states exactly that.
#[verifier::external_body]
pub(crate) fn str_trim(s: &str) -> (r: &str)
    ensures
        r@ == trim_ws(s@),
{
    s.trim()
}

/// Whether `c` is an ASCII char.
pub open spec fn is_ascii_char(c: char) -> bool {
    (c as u32) < 128
}

/// Every char of `s` is ASCII.
pub open spec fn all_ascii(s: Seq<char>) -> bool {
    forall|i: int| 0 <= i < s.len() ==> is_ascii_char(#[trigger] s[i])
}

/// `c` with an ASCII capital letter turned into its small letter.
pub open spec fn ascii_lower_char(c: char) -> char {
    if 'A' <= c && c <= 'Z' {
        ((c as u32) + 32) as char
    } else {
        c
    }
}

/// `c` with an ASCII small letter turned into its capital letter.
pub open spec fn ascii_upper_char(c: char) -> char {
    if 'a' <= c && c <= 'z' {
        ((c as u32) - 32) as char
    } else {
        c
    }
}

/// `s` with every ASCII capital letter made small.
pub open spec fn ascii_lower(s: Seq<char>) -> Seq<char> {
    s.map_values(|c: char| ascii_lower_char(c))
}

/// `s` with every ASCII small letter made capital.
pub open spec fn ascii_upper(s: Seq<char>) -> Seq<char> {
    s.map_values(|c: char| ascii_upper_char(c))
}

/// The lowercase form of `s` as `str::to_lowercase` computes it: the Unicode
/// `Lowercase` mapping of each char, with the final-sigma rule. Its tables
/// are not written out here; only the name of the result is used.
pub uninterp spec fn unicode_lowercase(s: Seq<char>) -> Seq<char>;

/// Calls `str::to_lowercase`, which "returns the lowercase equivalent of this
/// string slice, as a new String". The contract names the result
/// `unicode_lowercase(s@)` and adds two plain facts: the empty string
/// lowercases to the empty string, and on ASCII text lowercasing makes each
/// capital letter small and keeps every other char. Which char a non-ASCII
/// char maps to is left to the name.
#[verifier::external_body]
pub(crate) fn str_to_lowercase(s: &str) -> (r: String)
    ensures
        r@ == unicode_lowercase(s@),
        s@.len() == 0 ==> r@.len() == 0,
        all_ascii(s@) ==> r@ == ascii_lower(s@),
{
    s.to_lowercase()
}

/// Whether `needle` occurs in `haystack` as a contiguous run of chars.
pub open spec fn has_substring(haystack: Seq<char>, needle: Seq<char>) -> bool {
    exists|i: int|
        0 <= i && i + needle.len() <= haystack.len() && #[trigger] haystack.subrange(
            i,
            i + needle.len(),
        ) == needle
}

/// Calls `str::contains` with a string pattern, which "returns true if the
/// given pattern matches a sub-slice of this string slice"; the contract
/// states exactly that.
#[verifier::external_body]
pub(crate) fn str_contains(haystack: &str, needle: &str) -> (r: bool)
    ensures
        r == has_substring(haystack@, needle@),
{
    haystack.contains(needle)
}

/// Trimming the start keeps a suffix of `s`: all that it drops is
/// whitespace, and what it keeps starts with a char that is not.
pub proof fn lemma_trim_start_ws(s: Seq<char>) -> (m: int)
    ensures
        0 <= m <= s.len(),
        trim_start_ws(s) == s.subrange(m, s.len() as int),
        forall|k: int| 0 <= k < m ==> unicode_white_space(#[trigger] s[k]),
        m < s.len() ==> !unicode_white_space(s[m]),
    decreases s.len(),
{
    if s.len() > 0 && unicode_white_space(s[0]) {
        let m1 = lemma_trim_start_ws(s.drop_first());
        assert forall|k: int| 0 <= k < m1 + 1 implies unicode_white_space(#[trigger] s[k]) by {
            if k > 0 {
                assert(s[k] == s.drop_first()[k - 1]);
            }
        }
        assert(s.drop_first().subrange(m1, s.drop_first().len() as int) =~= s.subrange(
            m1 + 1,
            s.len() as int,
        ));
        m1 + 1
    } else {
        assert(s.subrange(0, s.len() as int) =~= s);
        0
    }
}

/// Trimming the end keeps a prefix of `s`: all that it drops is whitespace,
/// and what it keeps ends with a char that is not.
pub proof fn lemma_trim_end_ws(s: Seq<char>) -> (n: int)
    ensures
        0 <= n <= s.len(),
        trim_end_ws(s) == s.subrange(0, n),
        forall|k: int| n <= k < s.len() ==> unicode_white_space(#[trigger] s[k]),
        n > 0 ==> !unicode_white_space(s[n - 1]),
    decreases s.len(),
{
    if s.len() > 0 && unicode_white_space(s.last()) {
        let n1 = lemma_trim_end_ws(s.drop_last());
        assert forall|k: int| n1 <= k < s.len() implies unicode_white_space(#[trigger] s[k]) by {
            if k < s.len() - 1 {
                assert(s[k] == s.drop_last()[k]);
            }
        }
        assert(s.drop_last().subrange(0, n1) =~= s.subrange(0, n1));
        n1
    } else {
        assert(s.subrange(0, s.len() as int) =~= s);
        s.len() as int
    }
}

/// A trimmed string neither starts nor ends with whitespace, and is a run of
/// the chars of the string it was trimmed from.
pub proof fn lemma_trim_ws_ends(s: Seq<char>)
    ensures
        trim_ws(s).len() > 0 ==> !unicode_white_space(trim_ws(s)[0]) && !unicode_white_space(
            trim_ws(s).last(),
        ),
        exists|i: int, j: int| 0 <= i <= j <= s.len() && trim_ws(s) == s.subrange(i, j),
{
    let m = lemma_trim_start_ws(s);
    let t = trim_start_ws(s);
    let n = lemma_trim_end_ws(t);
    assert(trim_ws(s) == t.subrange(0, n));
    assert(t.subrange(0, n) =~= s.subrange(m, m + n));
    if n > 0 {
        assert(trim_ws(s)[0] == s[m]);
        assert(trim_ws(s).last() == t[n - 1]);
    }
}

/// Trimming keeps ASCII text ASCII.
pub proof fn lemma_trim_ws_ascii(s: Seq<char>)
    requires
        all_ascii(s),
    ensures
        all_ascii(trim_ws(s)),
{
    lemma_trim_ws_ends(s);
    let (i, j) = choose|i: int, j: int| 0 <= i <= j <= s.len() && trim_ws(s) == s.subrange(i, j);
    assert forall|k: int| 0 <= k < trim_ws(s).len() implies is_ascii_char(#[trigger] trim_ws(s)[k]) by {
        assert(trim_ws(s)[k] == s[i + k]);
    }
}

/// Leading whitespace in front of `s` is trimmed away with the rest.
proof fn lemma_trim_start_prefix(pre: Seq<char>, s: Seq<char>)
    requires
        all_white_space(pre),
    ensures
        trim_start_ws(pre + s) == trim_start_ws(s),
    decreases pre.len(),
{
    if pre.len() > 0 {
        assert((pre + s)[0] == pre[0]);
        assert((pre + s).drop_first() =~= pre.drop_first() + s);
        assert forall|i: int| 0 <= i < pre.drop_first().len() implies unicode_white_space(
            #[trigger] pre.drop_first()[i],
        ) by {
            assert(pre.drop_first()[i] == pre[i + 1]);
        }
        lemma_trim_start_prefix(pre.drop_first(), s);
    } else {
        assert(pre + s =~= s);
    }
}

/// Trailing whitespace after `s` is trimmed away with the rest.
proof fn lemma_trim_end_suffix(s: Seq<char>, post: Seq<char>)
    requires
        all_white_space(post),
    ensures
        trim_end_ws(s + post) == trim_end_ws(s),
    decreases post.len(),
{
    if post.len() > 0 {
        assert((s + post).last() == post.last());
        assert((s + post).drop_last() =~= s + post.drop_last());
        assert forall|i: int| 0 <= i < post.drop_last().len() implies unicode_white_space(
            #[trigger] post.drop_last()[i],
        ) by {
            assert(post.drop_last()[i] == post[i]);
        }
        lemma_trim_end_suffix(s, post.drop_last());
    } else {
        assert(s + post =~= s);
    }
}

/// Trimming the start of `s` followed by `t`: if `s` holds a char that is
/// not whitespace, the start of `s` is trimmed and `t` kept, else the start
/// of `t` is trimmed.
proof fn lemma_trim_start_concat(s: Seq<char>, t: Seq<char>)
    ensures
        trim_start_ws(s + t) == if trim_start_ws(s).len() > 0 {
            trim_start_ws(s) + t
        } else {
            trim_start_ws(t)
        },
    decreases s.len(),
{
    if s.len() == 0 {
        assert(s + t =~= t);
    } else {
        assert((s + t)[0] == s[0]);
        if unicode_white_space(s[0]) {
            assert((s + t).drop_first() =~= s.drop_first() + t);
            lemma_trim_start_concat(s.drop_first(), t);
        }
    }
}

/// An all-whitespace string trims to nothing.
proof fn lemma_trim_start_all_white(s: Seq<char>)
    requires
        all_white_space(s),
    ensures
        trim_start_ws(s).len() == 0,
{
    let m = lemma_trim_start_ws(s);
    if m < s.len() {
        assert(unicode_white_space(s[m]));
    }
}

/// Whitespace put around a string does not change what it trims to.
pub proof fn lemma_trim_ws_padding(pre: Seq<char>, s: Seq<char>, post: Seq<char>)
    requires
        all_white_space(pre),
        all_white_space(post),
    ensures
        trim_ws(pre + s + post) == trim_ws(s),
{
    assert(pre + s + post =~= pre + (s + post));
    lemma_trim_start_prefix(pre, s + post);
    lemma_trim_start_concat(s, post);
    if trim_start_ws(s).len() > 0 {
        lemma_trim_end_suffix(trim_start_ws(s), post);
    } else {
        lemma_trim_start_all_white(post);
        let e = trim_start_ws(post);
        assert(trim_end_ws(e) == e);
        assert(trim_end_ws(trim_start_ws(s)) == trim_start_ws(s));
        assert(e =~= trim_start_ws(s));
    }
}

/// An ASCII letter's case does not make it whitespace or not.
proof fn lemma_ascii_lower_char_white(c: char)
    ensures
        unicode_white_space(ascii_lower_char(c)) == unicode_white_space(c),
{
    if 'A' <= c && c <= 'Z' {
        let u = c as u32;
        assert(0x41 <= u <= 0x5A);
        assert((((c as u32) + 32) as char) as u32 == u + 32);
    }
}

/// Trimming and making ASCII letters small may be done in either order.
pub proof fn lemma_trim_ws_ascii_lower(s: Seq<char>)
    ensures
        trim_ws(ascii_lower(s)) == ascii_lower(trim_ws(s)),
{
    lemma_trim_start_ascii_lower(s);
    lemma_trim_end_ascii_lower(trim_start_ws(s));
}

proof fn lemma_trim_start_ascii_lower(s: Seq<char>)
    ensures
        trim_start_ws(ascii_lower(s)) == ascii_lower(trim_start_ws(s)),
    decreases s.len(),
{
    if s.len() > 0 {
        lemma_ascii_lower_char_white(s[0]);
        assert(ascii_lower(s)[0] == ascii_lower_char(s[0]));
        if unicode_white_space(s[0]) {
            assert(ascii_lower(s).drop_first() =~= ascii_lower(s.drop_first()));
            lemma_trim_start_ascii_lower(s.drop_first());
        }
    } else {
        assert(ascii_lower(s) =~= s);
    }
}

proof fn lemma_trim_end_ascii_lower(s: Seq<char>)
    ensures
        trim_end_ws(ascii_lower(s)) == ascii_lower(trim_end_ws(s)),
    decreases s.len(),
{
    if s.len() > 0 {
        lemma_ascii_lower_char_white(s.last());
        assert(ascii_lower(s).last() == ascii_lower_char(s.last()));
        if unicode_white_space(s.last()) {
            assert(ascii_lower(s).drop_last() =~= ascii_lower(s.drop_last()));
            lemma_trim_end_ascii_lower(s.drop_last());
        }
    } else {
        assert(ascii_lower(s) =~= s);
    }
}

/// Making ASCII letters small after making them capital, or twice, is the
/// same as making them small once.
pub proof fn lemma_ascii_lower_absorbs(s: Seq<char>)
    ensures
        ascii_lower(ascii_upper(s)) == ascii_lower(s),
        ascii_lower(ascii_lower(s)) == ascii_lower(s),
{
    assert forall|i: int| 0 <= i < s.len() implies #[trigger] ascii_lower(ascii_upper(s))[i]
        == ascii_lower(s)[i] && ascii_lower(ascii_lower(s))[i] == ascii_lower(s)[i] by {
        let c = s[i];
        let u = c as u32;
        if 'a' <= c && c <= 'z' {
            assert(0x61 <= u <= 0x7A);
            assert((((c as u32) - 32) as char) as u32 == u - 32);
            assert(((((((c as u32) - 32) as char) as u32) + 32) as char) == c);
        }
        if 'A' <= c && c <= 'Z' {
            assert(0x41 <= u <= 0x5A);
            assert((((c as u32) + 32) as char) as u32 == u + 32);
        }
    }
    assert(ascii_lower(ascii_upper(s)) =~= ascii_lower(s));
    assert(ascii_lower(ascii_lower(s)) =~= ascii_lower(s));
}

/// Changing the case of ASCII letters keeps ASCII text ASCII.
pub proof fn lemma_ascii_case_keeps_ascii(s: Seq<char>)
    requires
        all_ascii(s),
    ensures
        all_ascii(ascii_lower(s)),
        all_ascii(ascii_upper(s)),
{
    assert forall|i: int| 0 <= i < s.len() implies is_ascii_char(#[trigger] ascii_lower(s)[i])
        && is_ascii_char(ascii_upper(s)[i]) by {
        let c = s[i];
        if 'a' <= c && c <= 'z' {
            assert((((c as u32) - 32) as char) as u32 == (c as u32) - 32);
        }
        if 'A' <= c && c <= 'Z' {
            assert((((c as u32) + 32) as char) as u32 == (c as u32) + 32);
        }
    }
}

} // verus!
