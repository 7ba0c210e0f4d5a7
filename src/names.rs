//! The matching key under which names are compared when metadata is inherited.

use vstd::prelude::*;
use vstd::string::*;

verus! {

/// What `str::to_lowercase` makes of a string.
pub uninterp spec fn lower_of(s: Seq<char>) -> Seq<char>;

/// Whether a character has the Unicode `White_Space` property.
pub open spec fn is_space(c: char) -> bool {
    let u = c as u32;
    (0x9 <= u <= 0xD) || u == 0x20 || u == 0x85 || u == 0xA0 || u == 0x1680 || (0x2000 <= u
        <= 0x200A) || u == 0x2028 || u == 0x2029 || u == 0x202F || u == 0x205F || u == 0x3000
}

/// Whether a character is alphabetic or numeric in the Unicode sense.
pub uninterp spec fn is_alnum(c: char) -> bool;

/// Relies on `str::to_lowercase`: the lowercase mapping depends on the characters alone.
#[verifier::external_body]
fn lowercase(s: &str) -> (r: String)
    ensures
        r@ == lower_of(s@),
{
    s.to_lowercase()
}

/// Whether a character is whitespace, as `char::is_whitespace` decides it.
fn char_is_whitespace(c: char) -> (r: bool)
    ensures
        r == is_space(c),
{
    let u = c as u32;
    (0x9 <= u && u <= 0xD) || u == 0x20 || u == 0x85 || u == 0xA0 || u == 0x1680 || (0x2000 <= u
        && u <= 0x200A) || u == 0x2028 || u == 0x2029 || u == 0x202F || u == 0x205F || u == 0x3000
}

/// Relies on `char::is_alphanumeric`.
#[verifier::external_body]
fn char_is_alphanumeric(c: char) -> (r: bool)
    ensures
        r == is_alnum(c),
{
    c.is_alphanumeric()
}

/// Relies on `String::push`: appends one character at the end.
#[verifier::external_body]
pub(crate) fn push_char(s: &mut String, c: char)
    ensures
        final(s)@ == old(s)@.push(c),
{
    s.push(c)
}

/// `s` without its leading whitespace.
pub open spec fn trim_start(s: Seq<char>) -> Seq<char>
    decreases s.len(),
{
    if s.len() > 0 && is_space(s[0]) {
        trim_start(s.subrange(1, s.len() as int))
    } else {
        s
    }
}

/// `s` without its trailing whitespace.
pub open spec fn trim_end(s: Seq<char>) -> Seq<char>
    decreases s.len(),
{
    if s.len() > 0 && is_space(s.last()) {
        trim_end(s.drop_last())
    } else {
        s
    }
}

pub open spec fn the_article() -> Seq<char> {
    seq!['t', 'h', 'e', ' ']
}

/// `s` with every occurrence of "the " removed, scanning left to right
/// without overlaps.
pub open spec fn strip_article(s: Seq<char>) -> Seq<char>
    decreases s.len(),
{
    if s.len() >= 4 && s.subrange(0, 4) == the_article() {
        strip_article(s.subrange(4, s.len() as int))
    } else if s.len() == 0 {
        s
    } else {
        seq![s[0]] + strip_article(s.subrange(1, s.len() as int))
    }
}

/// `s` keeping only its alphanumeric and whitespace characters.
pub open spec fn keep_word_chars(s: Seq<char>) -> Seq<char>
    decreases s.len(),
{
    if s.len() == 0 {
        s
    } else {
        let rest = keep_word_chars(s.subrange(1, s.len() as int));
        if is_alnum(s[0]) || is_space(s[0]) {
            seq![s[0]] + rest
        } else {
            rest
        }
    }
}

/// The words of `s` (its maximal runs of non-whitespace characters) joined by
/// single spaces. `gap` says a run of whitespace has been seen since the last
/// word character, `begun` that some word character has been emitted.
pub open spec fn join_words(gap: bool, begun: bool, s: Seq<char>) -> Seq<char>
    decreases s.len(),
{
    if s.len() == 0 {
        s
    } else if is_space(s[0]) {
        join_words(begun, begun, s.subrange(1, s.len() as int))
    } else if gap {
        seq![' ', s[0]] + join_words(false, true, s.subrange(1, s.len() as int))
    } else {
        seq![s[0]] + join_words(false, true, s.subrange(1, s.len() as int))
    }
}

/// The matching key of a name: lowercase, trimmed, "the " removed, only
/// alphanumeric and whitespace characters kept, words joined by single spaces.
pub open spec fn normalized(s: Seq<char>) -> Seq<char> {
    join_words(false, false, keep_word_chars(strip_article(trim_end(trim_start(lower_of(s))))))
}

fn chars_of(s: &str) -> (r: Vec<char>)
    ensures
        r@ == s@,
{
    let n = s.unicode_len();
    let mut r: Vec<char> = Vec::new();
    let mut i: usize = 0;
    while i < n
        invariant
            n == s@.len(),
            i <= n,
            r@ == s@.subrange(0, i as int),
        decreases n - i,
    {
        r.push(s.get_char(i));
        i = i + 1;
        assert(r@ =~= s@.subrange(0, i as int));
    }
    assert(r@ =~= s@);
    r
}

fn trimmed(c: &Vec<char>) -> (r: Vec<char>)
    ensures
        r@ == trim_end(trim_start(c@)),
{
    let n = c.len();
    let mut i: usize = 0;
    assert(c@.subrange(0, n as int) =~= c@);
    while i < n && char_is_whitespace(c[i])
        invariant
            n == c@.len(),
            i <= n,
            trim_start(c@) == trim_start(c@.subrange(i as int, n as int)),
        decreases n - i,
    {
        assert(c@.subrange(i as int, n as int).subrange(1, (n - i) as int) =~= c@.subrange(
            i + 1,
            n as int,
        ));
        i = i + 1;
    }
    let ghost front = c@.subrange(i as int, n as int);
    assert(trim_start(c@) == front);
    let mut j: usize = n;
    while j > i && char_is_whitespace(c[j - 1])
        invariant
            n == c@.len(),
            i <= j <= n,
            front == c@.subrange(i as int, n as int),
            trim_end(front) == trim_end(c@.subrange(i as int, j as int)),
        decreases j - i,
    {
        assert(c@.subrange(i as int, j as int).drop_last() =~= c@.subrange(i as int, j - 1));
        j = j - 1;
    }
    let mut r: Vec<char> = Vec::new();
    let mut k: usize = i;
    while k < j
        invariant
            n == c@.len(),
            i <= k <= j <= n,
            r@ == c@.subrange(i as int, k as int),
        decreases j - k,
    {
        r.push(c[k]);
        k = k + 1;
        assert(r@ =~= c@.subrange(i as int, k as int));
    }
    r
}

fn is_article_at(t: &Vec<char>, k: usize) -> (r: bool)
    requires
        k <= t@.len(),
    ensures
        r == (t@.len() - k >= 4 && t@.subrange(k as int, k + 4) == the_article()),
{
    if t.len() - k >= 4 && t[k] == 't' && t[k + 1] == 'h' && t[k + 2]
        == 'e' && t[k + 3] == ' ' {
        assert(t@.subrange(k as int, k + 4) =~= the_article());
        true
    } else {
        proof {
            if t@.len() - k >= 4 && t@.subrange(k as int, k + 4) == the_article() {
                assert(t@.subrange(k as int, k + 4)[0] == 't');
                assert(t@.subrange(k as int, k + 4)[1] == 'h');
                assert(t@.subrange(k as int, k + 4)[2] == 'e');
                assert(t@.subrange(k as int, k + 4)[3] == ' ');
            }
        }
        false
    }
}

fn without_article(t: &Vec<char>) -> (r: Vec<char>)
    ensures
        r@ == strip_article(t@),
{
    let n = t.len();
    let mut r: Vec<char> = Vec::new();
    let mut k: usize = 0;
    assert(t@.subrange(0, n as int) =~= t@);
    while k < n
        invariant
            n == t@.len(),
            k <= n,
            r@ + strip_article(t@.subrange(k as int, n as int)) == strip_article(t@),
        decreases n - k,
    {
        let ghost rest = t@.subrange(k as int, n as int);
        if is_article_at(t, k) {
            assert(rest.subrange(0, 4) =~= t@.subrange(k as int, k + 4));
            assert(rest.subrange(4, rest.len() as int) =~= t@.subrange(k + 4, n as int));
            k = k + 4;
        } else {
            assert(rest.len() < 4 || rest.subrange(0, 4) != the_article()) by {
                if rest.len() >= 4 {
                    assert(rest.subrange(0, 4) =~= t@.subrange(k as int, k + 4));
                }
            }
            assert(rest.subrange(1, rest.len() as int) =~= t@.subrange(k + 1, n as int));
            let ghost old_r = r@;
            r.push(t[k]);
            assert(r@ =~= old_r + seq![rest[0]]);
            assert(old_r + (seq![rest[0]] + strip_article(rest.subrange(1, rest.len() as int)))
                =~= r@ + strip_article(rest.subrange(1, rest.len() as int)));
            k = k + 1;
        }
    }
    assert(t@.subrange(n as int, n as int) =~= Seq::<char>::empty());
    assert(r@ =~= r@ + strip_article(Seq::<char>::empty()));
    r
}

fn word_chars(t: &Vec<char>) -> (r: Vec<char>)
    ensures
        r@ == keep_word_chars(t@),
{
    let n = t.len();
    let mut r: Vec<char> = Vec::new();
    let mut k: usize = 0;
    assert(t@.subrange(0, n as int) =~= t@);
    while k < n
        invariant
            n == t@.len(),
            k <= n,
            r@ + keep_word_chars(t@.subrange(k as int, n as int)) == keep_word_chars(t@),
        decreases n - k,
    {
        let ghost rest = t@.subrange(k as int, n as int);
        assert(rest.subrange(1, rest.len() as int) =~= t@.subrange(k + 1, n as int));
        let c = t[k];
        if char_is_alphanumeric(c) || char_is_whitespace(c) {
            let ghost old_r = r@;
            r.push(c);
            assert(old_r + (seq![c] + keep_word_chars(rest.subrange(1, rest.len() as int)))
                =~= r@ + keep_word_chars(rest.subrange(1, rest.len() as int)));
        }
        k = k + 1;
    }
    assert(t@.subrange(n as int, n as int) =~= Seq::<char>::empty());
    assert(r@ =~= r@ + keep_word_chars(Seq::<char>::empty()));
    r
}

fn joined_words(t: &Vec<char>) -> (r: String)
    ensures
        r@ == join_words(false, false, t@),
{
    let n = t.len();
    let mut r = String::new();
    let mut gap = false;
    let mut begun = false;
    let mut k: usize = 0;
    assert(t@.subrange(0, n as int) =~= t@);
    while k < n
        invariant
            n == t@.len(),
            k <= n,
            begun == (r@.len() > 0),
            r@ + join_words(gap, begun, t@.subrange(k as int, n as int)) == join_words(
                false,
                false,
                t@,
            ),
        decreases n - k,
    {
        let ghost rest = t@.subrange(k as int, n as int);
        let ghost tail = rest.subrange(1, rest.len() as int);
        assert(tail =~= t@.subrange(k + 1, n as int));
        let c = t[k];
        if char_is_whitespace(c) {
            gap = begun;
        } else {
            let ghost old_r = r@;
            if gap {
                push_char(&mut r, ' ');
                push_char(&mut r, c);
                assert(old_r + (seq![' ', c] + join_words(false, true, tail)) =~= r@ + join_words(
                    false,
                    true,
                    tail,
                ));
            } else {
                push_char(&mut r, c);
                assert(old_r + (seq![c] + join_words(false, true, tail)) =~= r@ + join_words(
                    false,
                    true,
                    tail,
                ));
            }
            gap = false;
            begun = true;
        }
        k = k + 1;
    }
    assert(t@.subrange(n as int, n as int) =~= Seq::<char>::empty());
    assert(r@ =~= r@ + join_words(gap, begun, Seq::<char>::empty()));
    r
}

/// The key under which artist, track and release names are matched: the name
/// lowercased and trimmed, with "the " removed, only alphanumeric and
/// whitespace characters kept, and its words joined by single spaces.
pub fn normalize_name(name: &str) -> (r: String)
    ensures
        r@ == normalized(name@),
{
    let low = lowercase(name);
    let c = chars_of(low.as_str());
    let t = trimmed(&c);
    let s = without_article(&t);
    let w = word_chars(&s);
    joined_words(&w)
}

} // verus!
