//! Verified helpers for character sequences: case folding, trimming,
//! prefix and suffix tests, and splitting.
//!
//! The parsers in this crate treat the ASCII characters space, tab,
//! carriage return and line feed as whitespace, and fold only the ASCII
//! uppercase letters, which is what the wire protocol calls for.
use vstd::prelude::*;
use vstd::string::*;

verus! {

/// The whitespace characters recognised by the parsers.
pub open spec fn is_space(c: char) -> bool {
    c == ' ' || c == '\t' || c == '\r' || c == '\n'
}

pub fn is_space_char(c: char) -> (r: bool)
    ensures
        r == is_space(c),
{
    c == ' ' || c == '\t' || c == '\r' || c == '\n'
}

/// Lowercase an ASCII uppercase letter; leave every other character alone.
pub open spec fn spec_lower_char(c: char) -> char {
    if 'A' <= c && c <= 'Z' {
        ((c as int + 32) as char)
    } else {
        c
    }
}

/// Fold ASCII uppercase letters of a whole sequence to lowercase.
pub open spec fn spec_lower(s: Seq<char>) -> Seq<char> {
    s.map_values(|c: char| spec_lower_char(c))
}

pub fn lower_char(c: char) -> (r: char)
    ensures
        r == spec_lower_char(c),
{
    match c {
        'A' => 'a',
        'B' => 'b',
        'C' => 'c',
        'D' => 'd',
        'E' => 'e',
        'F' => 'f',
        'G' => 'g',
        'H' => 'h',
        'I' => 'i',
        'J' => 'j',
        'K' => 'k',
        'L' => 'l',
        'M' => 'm',
        'N' => 'n',
        'O' => 'o',
        'P' => 'p',
        'Q' => 'q',
        'R' => 'r',
        'S' => 's',
        'T' => 't',
        'U' => 'u',
        'V' => 'v',
        'W' => 'w',
        'X' => 'x',
        'Y' => 'y',
        'Z' => 'z',
        _ => c,
    }
}

/// Relies on String::push: appends exactly one character to the string.
#[verifier::external_body]
pub(crate) fn push_char(s: &mut String, c: char) -> (r: ())
    ensures
        final(s)@ == old(s)@.push(c),
{
    s.push(c)
}

pub fn lower(s: &str) -> (r: String)
    ensures
        r@ == spec_lower(s@),
{
    let n = s.unicode_len();
    let mut out = String::new();
    let mut i: usize = 0;
    while i < n
        invariant
            n == s@.len(),
            i <= n,
            out@ == spec_lower(s@.take(i as int)),
        decreases n - i,
    {
        let c = s.get_char(i);
        push_char(&mut out, lower_char(c));
        proof {
            assert(out@ =~= spec_lower(s@.take(i + 1)));
        }
        i += 1;
    }
    proof {
        assert(s@.take(n as int) =~= s@);
    }
    out
}

pub fn str_eq(a: &str, b: &str) -> (r: bool)
    ensures
        r == (a@ == b@),
{
    let alen = a.unicode_len();
    let blen = b.unicode_len();
    if alen != blen {
        return false;
    }
    let mut i: usize = 0;
    while i < alen
        invariant
            alen == a@.len(),
            alen == b@.len(),
            i <= alen,
            forall|j: int| 0 <= j < i ==> a@[j] == b@[j],
        decreases alen - i,
    {
        if a.get_char(i) != b.get_char(i) {
            return false;
        }
        i += 1;
    }
    proof {
        assert(a@ =~= b@);
    }
    true
}

/// `p` is a prefix of `s`.
pub open spec fn spec_starts_with(s: Seq<char>, p: Seq<char>) -> bool {
    p.len() <= s.len() && s.subrange(0, p.len() as int) == p
}

/// `p` is a suffix of `s`.
pub open spec fn spec_ends_with(s: Seq<char>, p: Seq<char>) -> bool {
    p.len() <= s.len() && s.subrange(s.len() - p.len(), s.len() as int) == p
}

pub fn starts_with(s: &str, p: &str) -> (r: bool)
    ensures
        r == spec_starts_with(s@, p@),
{
    let plen = p.unicode_len();
    let slen = s.unicode_len();
    if plen > slen {
        return false;
    }
    let mut i: usize = 0;
    while i < plen
        invariant
            plen == p@.len(),
            slen == s@.len(),
            plen <= slen,
            i <= plen,
            forall|j: int| 0 <= j < i ==> s@[j] == p@[j],
        decreases plen - i,
    {
        if s.get_char(i) != p.get_char(i) {
            proof {
                assert(s@.subrange(0, p@.len() as int)[i as int] != p@[i as int]);
            }
            return false;
        }
        i += 1;
    }
    proof {
        assert(s@.subrange(0, p@.len() as int) =~= p@);
    }
    true
}

pub fn ends_with(s: &str, p: &str) -> (r: bool)
    ensures
        r == spec_ends_with(s@, p@),
{
    let plen = p.unicode_len();
    let slen = s.unicode_len();
    if plen > slen {
        return false;
    }
    let off = slen - plen;
    let mut i: usize = 0;
    while i < plen
        invariant
            plen == p@.len(),
            slen == s@.len(),
            plen <= slen,
            off == slen - plen,
            i <= plen,
            forall|j: int| 0 <= j < i ==> s@[off + j] == p@[j],
        decreases plen - i,
    {
        if s.get_char(off + i) != p.get_char(i) {
            proof {
                assert(s@.subrange(s@.len() - p@.len(), s@.len() as int)[i as int] != p@[
                i as int]);
            }
            return false;
        }
        i += 1;
    }
    proof {
        assert(s@.subrange(s@.len() - p@.len(), s@.len() as int) =~= p@);
    }
    true
}

} // verus!

verus! {

/// Drop characters satisfying `p` from the front of `s`.
pub open spec fn strip_front(s: Seq<char>, p: spec_fn(char) -> bool) -> Seq<char>
    decreases s.len(),
{
    if s.len() > 0 && p(s[0]) {
        strip_front(s.skip(1), p)
    } else {
        s
    }
}

/// Drop characters satisfying `p` from the back of `s`.
pub open spec fn strip_back(s: Seq<char>, p: spec_fn(char) -> bool) -> Seq<char>
    decreases s.len(),
{
    if s.len() > 0 && p(s.last()) {
        strip_back(s.drop_last(), p)
    } else {
        s
    }
}

pub open spec fn space_pred() -> spec_fn(char) -> bool {
    |c: char| is_space(c)
}

pub open spec fn quote_pred() -> spec_fn(char) -> bool {
    |c: char| c == '"'
}

/// `s` with leading and trailing whitespace removed.
pub open spec fn spec_trim(s: Seq<char>) -> Seq<char> {
    strip_back(strip_front(s, space_pred()), space_pred())
}

/// `s` with leading and trailing double quotes removed.
pub open spec fn spec_trim_quotes(s: Seq<char>) -> Seq<char> {
    strip_back(strip_front(s, quote_pred()), quote_pred())
}

pub proof fn lemma_strip_front_skip(s: Seq<char>, p: spec_fn(char) -> bool, i: int)
    requires
        0 <= i <= s.len(),
        forall|j: int| 0 <= j < i ==> p(s[j]),
        i < s.len() ==> !p(s[i]),
    ensures
        strip_front(s, p) == s.skip(i),
    decreases i,
{
    if i == 0 {
        assert(s.skip(0) =~= s);
    } else {
        lemma_strip_front_skip(s.skip(1), p, i - 1);
        assert(s.skip(1).skip(i - 1) =~= s.skip(i));
    }
}

pub proof fn lemma_strip_back_take(s: Seq<char>, p: spec_fn(char) -> bool, i: int)
    requires
        0 <= i <= s.len(),
        forall|j: int| i <= j < s.len() ==> p(s[j]),
        i > 0 ==> !p(s[i - 1]),
    ensures
        strip_back(s, p) == s.take(i),
    decreases s.len(),
{
    if i == s.len() {
        assert(s.take(i) =~= s);
    } else {
        assert(p(s.last()));
        lemma_strip_back_take(s.drop_last(), p, i);
        assert(s.drop_last().take(i) =~= s.take(i));
    }
}

/// Strip characters for which `quotes` selects the predicate (quotes when
/// true, whitespace when false) from both ends of `s`.
fn trim_by(s: &str, quotes: bool) -> (r: &str)
    ensures
        !quotes ==> r@ == spec_trim(s@),
        quotes ==> r@ == spec_trim_quotes(s@),
{
    let ghost p: spec_fn(char) -> bool = if quotes {
        quote_pred()
    } else {
        space_pred()
    };
    let n = s.unicode_len();
    let mut a: usize = 0;
    let mut stop = false;
    while !stop && a < n
        invariant
            p == (if quotes { quote_pred() } else { space_pred() }),
            n == s@.len(),
            a <= n,
            forall|j: int| 0 <= j < a ==> p(s@[j]),
            stop ==> a < n && !p(s@[a as int]),
        decreases n - a, (if stop { 0int } else { 1int }),
    {
        let c = s.get_char(a);
        let hit = if quotes {
            c == '"'
        } else {
            is_space_char(c)
        };
        proof {
            if quotes {
                assert(quote_pred()(c) == (c == '"'));
            } else {
                assert(space_pred()(c) == is_space(c));
            }
        }
        if hit {
            a += 1;
        } else {
            stop = true;
        }
    }
    proof {
        lemma_strip_front_skip(s@, p, a as int);
    }
    if a == n {
        let r = s.substring_char(0, 0);
        proof {
            assert(s@.skip(n as int) =~= s@.subrange(0, 0));
            assert(strip_back(s@.skip(n as int), p) =~= s@.subrange(0, 0));
        }
        return r;
    }
    let mut b: usize = n;
    let mut stop_b = false;
    while !stop_b && b > a
        invariant
            p == (if quotes { quote_pred() } else { space_pred() }),
            n == s@.len(),
            a < n,
            a <= b <= n,
            forall|j: int| b <= j < n ==> p(s@[j]),
            stop_b ==> b > a && !p(s@[b - 1]),
        decreases b, (if stop_b { 0int } else { 1int }),
    {
        let c = s.get_char(b - 1);
        let hit = if quotes {
            c == '"'
        } else {
            is_space_char(c)
        };
        proof {
            if quotes {
                assert(quote_pred()(c) == (c == '"'));
            } else {
                assert(space_pred()(c) == is_space(c));
            }
        }
        if hit {
            b -= 1;
        } else {
            stop_b = true;
        }
    }
    // b is a, or the predecessor of b fails p; s[a] fails p, so within the
    // suffix starting at a the strip from the back stops exactly at b.
    proof {
        let t = s@.skip(a as int);
        lemma_strip_back_take(t, p, b - a);
        assert(t.take(b - a) =~= s@.subrange(a as int, b as int));
    }
    s.substring_char(a, b)
}

/// `s` with leading and trailing whitespace removed.
pub fn trim(s: &str) -> (r: &str)
    ensures
        r@ == spec_trim(s@),
{
    trim_by(s, false)
}

/// `s` with leading and trailing double quotes removed.
pub fn trim_quotes(s: &str) -> (r: &str)
    ensures
        r@ == spec_trim_quotes(s@),
{
    trim_by(s, true)
}

/// Trimming a sequence with no whitespace at either end changes nothing.
pub proof fn lemma_trim_noop(s: Seq<char>)
    requires
        s.len() > 0 ==> !is_space(s[0]) && !is_space(s.last()),
    ensures
        spec_trim(s) == s,
{
    lemma_strip_front_skip(s, space_pred(), 0);
    assert(s.skip(0) =~= s);
    lemma_strip_back_take(s, space_pred(), s.len() as int);
    assert(s.take(s.len() as int) =~= s);
}

} // verus!

verus! {

/// Whitespace tokenisation: `cur` is the token being accumulated.
pub open spec fn tok_rec(s: Seq<char>, cur: Seq<char>) -> Seq<Seq<char>>
    decreases s.len(),
{
    if s.len() == 0 {
        if cur.len() > 0 {
            seq![cur]
        } else {
            Seq::empty()
        }
    } else if is_space(s[0]) {
        (if cur.len() > 0 {
            seq![cur]
        } else {
            Seq::empty()
        }) + tok_rec(s.skip(1), Seq::empty())
    } else {
        tok_rec(s.skip(1), cur.push(s[0]))
    }
}

/// The maximal whitespace-free runs of `s`, in order.
pub open spec fn spec_tokens(s: Seq<char>) -> Seq<Seq<char>> {
    tok_rec(s, Seq::empty())
}

/// Split `s` at every occurrence of `sep`; `cur` is the segment being built.
pub open spec fn split_rec(s: Seq<char>, sep: char, cur: Seq<char>) -> Seq<Seq<char>>
    decreases s.len(),
{
    if s.len() == 0 {
        seq![cur]
    } else if s[0] == sep {
        seq![cur] + split_rec(s.skip(1), sep, Seq::empty())
    } else {
        split_rec(s.skip(1), sep, cur.push(s[0]))
    }
}

/// The segments of `s` between occurrences of `sep` (always at least one).
pub open spec fn spec_split(s: Seq<char>, sep: char) -> Seq<Seq<char>> {
    split_rec(s, sep, Seq::empty())
}

pub proof fn lemma_split_rec_len(s: Seq<char>, sep: char, cur: Seq<char>)
    ensures
        split_rec(s, sep, cur).len() >= 1,
    decreases s.len(),
{
    if s.len() > 0 {
        if s[0] == sep {
            lemma_split_rec_len(s.skip(1), sep, Seq::empty());
        } else {
            lemma_split_rec_len(s.skip(1), sep, cur.push(s[0]));
        }
    }
}

pub fn tokens(s: &str) -> (r: Vec<String>)
    ensures
        r.deep_view() == spec_tokens(s@),
{
    let n = s.unicode_len();
    let mut out: Vec<String> = Vec::new();
    let mut cur = String::new();
    let mut i: usize = 0;
    proof {
        assert(out.deep_view() =~= Seq::<Seq<char>>::empty());
        assert(s@.skip(0) =~= s@);
        assert(Seq::<Seq<char>>::empty() + tok_rec(s@, Seq::empty()) =~= tok_rec(
            s@,
            Seq::empty(),
        ));
    }
    while i < n
        invariant
            n == s@.len(),
            i <= n,
            spec_tokens(s@) == out.deep_view() + tok_rec(s@.skip(i as int), cur@),
        decreases n - i,
    {
        let c = s.get_char(i);
        proof {
            assert(s@.skip(i as int)[0] == c);
            assert(s@.skip(i as int).skip(1) =~= s@.skip(i as int + 1));
        }
        if is_space_char(c) {
            if cur.as_str().unicode_len() > 0 {
                let ghost old_dv = out.deep_view();
                let ghost curv = cur@;
                out.push(cur);
                cur = String::new();
                proof {
                    assert(out.deep_view() =~= old_dv + seq![curv]);
                    assert(out.deep_view() + tok_rec(s@.skip(i as int + 1), cur@) =~= old_dv
                        + tok_rec(s@.skip(i as int), curv));
                }
            } else {
                proof {
                    assert(cur@ =~= Seq::<char>::empty());
                    assert(tok_rec(s@.skip(i as int), cur@) =~= Seq::<Seq<char>>::empty()
                        + tok_rec(s@.skip(i as int + 1), Seq::empty()));
                    assert(out.deep_view() + tok_rec(s@.skip(i as int + 1), cur@) =~= out.deep_view()
                        + tok_rec(s@.skip(i as int), cur@));
                }
            }
        } else {
            push_char(&mut cur, c);
        }
        i += 1;
    }
    proof {
        assert(s@.skip(n as int) =~= Seq::<char>::empty());
    }
    if cur.as_str().unicode_len() > 0 {
        let ghost old_dv = out.deep_view();
        let ghost curv = cur@;
        out.push(cur);
        proof {
            assert(out.deep_view() =~= old_dv + seq![curv]);
        }
    } else {
        proof {
            assert(out.deep_view() + tok_rec(Seq::<char>::empty(), cur@) =~= out.deep_view());
        }
    }
    out
}

pub fn split_char(s: &str, sep: char) -> (r: Vec<String>)
    ensures
        r.deep_view() == spec_split(s@, sep),
{
    let n = s.unicode_len();
    let mut out: Vec<String> = Vec::new();
    let mut cur = String::new();
    let mut i: usize = 0;
    proof {
        assert(out.deep_view() =~= Seq::<Seq<char>>::empty());
        assert(s@.skip(0) =~= s@);
        assert(Seq::<Seq<char>>::empty() + split_rec(s@, sep, Seq::empty()) =~= split_rec(
            s@,
            sep,
            Seq::empty(),
        ));
    }
    while i < n
        invariant
            n == s@.len(),
            i <= n,
            spec_split(s@, sep) == out.deep_view() + split_rec(s@.skip(i as int), sep, cur@),
        decreases n - i,
    {
        let c = s.get_char(i);
        proof {
            assert(s@.skip(i as int)[0] == c);
            assert(s@.skip(i as int).skip(1) =~= s@.skip(i as int + 1));
        }
        if c == sep {
            let ghost old_dv = out.deep_view();
            let ghost curv = cur@;
            out.push(cur);
            cur = String::new();
            proof {
                assert(out.deep_view() =~= old_dv + seq![curv]);
                assert(out.deep_view() + split_rec(s@.skip(i as int + 1), sep, cur@) =~= old_dv
                    + split_rec(s@.skip(i as int), sep, curv));
            }
        } else {
            push_char(&mut cur, c);
        }
        i += 1;
    }
    proof {
        assert(s@.skip(n as int) =~= Seq::<char>::empty());
    }
    let ghost old_dv = out.deep_view();
    let ghost curv = cur@;
    out.push(cur);
    proof {
        assert(out.deep_view() =~= old_dv + seq![curv]);
    }
    out
}

/// There is an occurrence of `c` in `s`.
pub open spec fn has_char(s: Seq<char>, c: char) -> bool
    decreases s.len(),
{
    s.len() > 0 && (s[0] == c || has_char(s.skip(1), c))
}

/// The part of `s` before the first occurrence of `c` (all of `s` if none).
pub open spec fn head_until(s: Seq<char>, c: char) -> Seq<char>
    decreases s.len(),
{
    if s.len() == 0 {
        Seq::empty()
    } else if s[0] == c {
        Seq::empty()
    } else {
        seq![s[0]] + head_until(s.skip(1), c)
    }
}

/// The part of `s` after the first occurrence of `c` (empty if none).
pub open spec fn tail_after(s: Seq<char>, c: char) -> Seq<char>
    decreases s.len(),
{
    if s.len() == 0 {
        Seq::empty()
    } else if s[0] == c {
        s.skip(1)
    } else {
        tail_after(s.skip(1), c)
    }
}

pub proof fn lemma_split_once_found(s: Seq<char>, c: char, i: int)
    requires
        0 <= i < s.len(),
        s[i] == c,
        forall|j: int| 0 <= j < i ==> s[j] != c,
    ensures
        has_char(s, c),
        head_until(s, c) == s.take(i),
        tail_after(s, c) == s.skip(i + 1),
    decreases i,
{
    if i == 0 {
        assert(s.take(0) =~= Seq::<char>::empty());
    } else {
        lemma_split_once_found(s.skip(1), c, i - 1);
        assert(seq![s[0]] + s.skip(1).take(i - 1) =~= s.take(i));
        assert(s.skip(1).skip(i) =~= s.skip(i + 1));
    }
}

pub proof fn lemma_split_once_none(s: Seq<char>, c: char)
    requires
        forall|j: int| 0 <= j < s.len() ==> s[j] != c,
    ensures
        !has_char(s, c),
    decreases s.len(),
{
    if s.len() > 0 {
        lemma_split_once_none(s.skip(1), c);
    }
}

/// Split `s` at the first occurrence of `sep` into the part before and the
/// part after; `None` when `sep` does not occur.
pub fn split_once<'a>(s: &'a str, sep: char) -> (r: Option<(&'a str, &'a str)>)
    ensures
        match r {
            Some(ht) => has_char(s@, sep) && ht.0@ == head_until(s@, sep) && ht.1@ == tail_after(
                s@,
                sep,
            ),
            None => !has_char(s@, sep),
        },
{
    let n = s.unicode_len();
    let mut i: usize = 0;
    while i < n
        invariant
            n == s@.len(),
            i <= n,
            forall|j: int| 0 <= j < i ==> s@[j] != sep,
        decreases n - i,
    {
        if s.get_char(i) == sep {
            proof {
                lemma_split_once_found(s@, sep, i as int);
                assert(s@.take(i as int) =~= s@.subrange(0, i as int));
                assert(s@.skip(i as int + 1) =~= s@.subrange(i as int + 1, n as int));
            }
            let h = s.substring_char(0, i);
            let t = s.substring_char(i + 1, n);
            return Some((h, t));
        }
        i += 1;
    }
    proof {
        lemma_split_once_none(s@, sep);
    }
    None
}

} // verus!

verus! {

/// The line terminator of the wire protocol.
pub open spec fn crlf() -> Seq<char> {
    seq!['\r', '\n']
}

/// Split `s` at every CRLF pair; `cur` is the line being accumulated.
pub open spec fn crlf_rec(s: Seq<char>, cur: Seq<char>) -> Seq<Seq<char>>
    decreases s.len(),
{
    if s.len() == 0 {
        seq![cur]
    } else if s.len() >= 2 && s[0] == '\r' && s[1] == '\n' {
        seq![cur] + crlf_rec(s.skip(2), Seq::empty())
    } else {
        crlf_rec(s.skip(1), cur.push(s[0]))
    }
}

/// The lines of `s`, taking CRLF as the separator (always at least one).
pub open spec fn spec_split_crlf(s: Seq<char>) -> Seq<Seq<char>> {
    crlf_rec(s, Seq::empty())
}

/// The lines joined back with CRLF between them.
pub open spec fn spec_join_crlf(ls: Seq<Seq<char>>) -> Seq<char>
    decreases ls.len(),
{
    if ls.len() == 0 {
        Seq::empty()
    } else if ls.len() == 1 {
        ls[0]
    } else {
        ls[0] + crlf() + spec_join_crlf(ls.skip(1))
    }
}

pub proof fn lemma_crlf_rec_len(s: Seq<char>, cur: Seq<char>)
    ensures
        crlf_rec(s, cur).len() >= 1,
    decreases s.len(),
{
    if s.len() > 0 {
        if s.len() >= 2 && s[0] == '\r' && s[1] == '\n' {
            lemma_crlf_rec_len(s.skip(2), Seq::empty());
        } else {
            lemma_crlf_rec_len(s.skip(1), cur.push(s[0]));
        }
    }
}

proof fn lemma_join_crlf_rec(s: Seq<char>, cur: Seq<char>)
    ensures
        spec_join_crlf(crlf_rec(s, cur)) == cur + s,
    decreases s.len(),
{
    if s.len() == 0 {
        assert(cur + s =~= cur);
    } else if s.len() >= 2 && s[0] == '\r' && s[1] == '\n' {
        lemma_crlf_rec_len(s.skip(2), Seq::empty());
        lemma_join_crlf_rec(s.skip(2), Seq::empty());
        let ls = seq![cur] + crlf_rec(s.skip(2), Seq::empty());
        assert(ls.skip(1) =~= crlf_rec(s.skip(2), Seq::empty()));
        assert(Seq::<char>::empty() + s.skip(2) =~= s.skip(2));
        assert(cur + crlf() + s.skip(2) =~= cur + s);
    } else {
        lemma_join_crlf_rec(s.skip(1), cur.push(s[0]));
        assert(cur.push(s[0]) + s.skip(1) =~= cur + s);
    }
}

/// Splitting at CRLF and joining with CRLF leaves the text unchanged.
pub proof fn lemma_join_split_crlf(s: Seq<char>)
    ensures
        spec_join_crlf(spec_split_crlf(s)) == s,
{
    lemma_join_crlf_rec(s, Seq::empty());
    assert(Seq::<char>::empty() + s =~= s);
}

pub fn split_crlf(s: &str) -> (r: Vec<String>)
    ensures
        r.deep_view() == spec_split_crlf(s@),
{
    let n = s.unicode_len();
    let mut out: Vec<String> = Vec::new();
    let mut cur = String::new();
    let mut i: usize = 0;
    proof {
        assert(out.deep_view() =~= Seq::<Seq<char>>::empty());
        assert(s@.skip(0) =~= s@);
        assert(Seq::<Seq<char>>::empty() + crlf_rec(s@, Seq::empty()) =~= crlf_rec(
            s@,
            Seq::empty(),
        ));
    }
    while i < n
        invariant
            n == s@.len(),
            i <= n,
            spec_split_crlf(s@) == out.deep_view() + crlf_rec(s@.skip(i as int), cur@),
        decreases n - i,
    {
        let c = s.get_char(i);
        proof {
            assert(s@.skip(i as int)[0] == c);
            assert(s@.skip(i as int).skip(1) =~= s@.skip(i as int + 1));
        }
        if c == '\r' && i + 1 < n && s.get_char(i + 1) == '\n' {
            proof {
                assert(s@.skip(i as int)[1] == s@[i as int + 1]);
                assert(s@.skip(i as int).skip(2) =~= s@.skip(i as int + 2));
            }
            let ghost old_dv = out.deep_view();
            let ghost curv = cur@;
            out.push(cur);
            cur = String::new();
            proof {
                assert(out.deep_view() =~= old_dv + seq![curv]);
                assert(out.deep_view() + crlf_rec(s@.skip(i as int + 2), cur@) =~= old_dv
                    + crlf_rec(s@.skip(i as int), curv));
            }
            i += 2;
        } else {
            push_char(&mut cur, c);
            i += 1;
        }
    }
    proof {
        assert(s@.skip(n as int) =~= Seq::<char>::empty());
    }
    let ghost old_dv = out.deep_view();
    let ghost curv = cur@;
    out.push(cur);
    proof {
        assert(out.deep_view() =~= old_dv + seq![curv]);
    }
    out
}

/// Append the CRLF line terminator.
pub fn append_crlf(s: &mut String)
    ensures
        final(s)@ == old(s)@ + crlf(),
{
    proof {
        reveal_strlit("\r\n");
    }
    s.append("\r\n");
    proof {
        assert(s@ =~= old(s)@ + crlf());
    }
}

} // verus!

verus! {

/// Splitting a sequence free of the separator yields one segment.
pub proof fn lemma_split_rec_none(s: Seq<char>, c: char, cur: Seq<char>)
    requires
        forall|j: int| 0 <= j < s.len() ==> s[j] != c,
    ensures
        split_rec(s, c, cur) == seq![cur + s],
    decreases s.len(),
{
    if s.len() == 0 {
        assert(cur + s =~= cur);
        assert(split_rec(s, c, cur) =~= seq![cur]);
    } else {
        lemma_split_rec_none(s.skip(1), c, cur.push(s[0]));
        assert(cur.push(s[0]) + s.skip(1) =~= cur + s);
    }
}

/// Splitting `a + [c] + d` where `a` is free of `c` yields `a` as the
/// first segment and continues in `d`.
pub proof fn lemma_split_rec_sep(a: Seq<char>, d: Seq<char>, c: char, cur: Seq<char>)
    requires
        forall|j: int| 0 <= j < a.len() ==> a[j] != c,
    ensures
        split_rec(a + seq![c] + d, c, cur) == seq![cur + a] + split_rec(d, c, Seq::empty()),
    decreases a.len(),
{
    let s = a + seq![c] + d;
    if a.len() == 0 {
        assert(s[0] == c);
        assert(s.skip(1) =~= d);
        assert(cur + a =~= cur);
    } else {
        assert(s[0] == a[0]);
        assert(s.skip(1) =~= a.skip(1) + seq![c] + d);
        lemma_split_rec_sep(a.skip(1), d, c, cur.push(a[0]));
        assert(cur.push(a[0]) + a.skip(1) =~= cur + a);
    }
}

} // verus!
