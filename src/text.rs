use vstd::prelude::*;

verus! {

/// Relies on `str::chars`: the characters of a string, in order.
#[verifier::external_body]
pub(crate) fn chars_of(s: &str) -> (r: Vec<char>)
    ensures
        r@ == s@,
{
    s.chars().collect()
}

/// Relies on `FromIterator<&char> for String`: the string of the given characters.
#[verifier::external_body]
pub(crate) fn string_of(cs: &[char]) -> (r: String)
    ensures
        r@ == cs@,
{
    cs.iter().collect()
}

/// Relies on `std::str::from_utf8`: it succeeds exactly on valid UTF-8 and
/// then yields the decoded characters.
#[verifier::external_body]
pub(crate) fn decode_utf8_chars(b: &[u8]) -> (r: Option<Vec<char>>)
    ensures
        r is Some <==> vstd::utf8::valid_utf8(b@),
        r matches Some(cs) ==> cs@ == vstd::utf8::decode_utf8(b@),
{
    std::str::from_utf8(b).ok().map(|s| s.chars().collect())
}

/// ASCII whitespace as `u8::is_ascii_whitespace` defines it.
pub open spec fn is_ascii_ws(c: char) -> bool {
    c == ' ' || c == '\t' || c == '\n' || c == '\x0C' || c == '\r'
}

/// Characters with the Unicode `White_Space` property (`char::is_whitespace`).
pub open spec fn is_unicode_ws(c: char) -> bool {
    let u = c as u32;
    (0x09 <= u && u <= 0x0D) || u == 0x20 || u == 0x85 || u == 0xA0 || u == 0x1680
        || (0x2000 <= u && u <= 0x200A) || u == 0x2028 || u == 0x2029 || u == 0x202F
        || u == 0x205F || u == 0x3000
}

/// The whitespace-separated tokens of `s`: maximal runs of characters that are
/// not ASCII whitespace, in order, `cur` being the part of a token read so far.
pub open spec fn split_ws_from(s: Seq<char>, cur: Seq<char>) -> Seq<Seq<char>>
    decreases s.len(),
{
    if s.len() == 0 {
        if cur.len() > 0 { seq![cur] } else { seq![] }
    } else if is_ascii_ws(s[0]) {
        (if cur.len() > 0 { seq![cur] } else { seq![] }) + split_ws_from(s.drop_first(), seq![])
    } else {
        split_ws_from(s.drop_first(), cur.push(s[0]))
    }
}

/// The tokens of a line, as `str::split_ascii_whitespace` yields them.
pub open spec fn tokens(s: Seq<char>) -> Seq<Seq<char>> {
    split_ws_from(s, seq![])
}

/// Views of a sequence of strings.
pub open spec fn views(v: Seq<String>) -> Seq<Seq<char>> {
    v.map_values(|t: String| t@)
}

/// Splits `s` on runs of ASCII whitespace.
pub fn split_tokens(s: &str) -> (r: Vec<String>)
    ensures
        views(r@) == tokens(s@),
{
    let cs = chars_of(s);
    let mut out: Vec<String> = Vec::new();
    let mut cur: Vec<char> = Vec::new();
    let mut i: usize = 0;
    proof {
        assert(cs@.skip(0) == cs@);
        assert(views(out@) + split_ws_from(cs@, cur@) =~= split_ws_from(cs@, cur@));
    }
    while i < cs.len()
        invariant
            cs@ == s@,
            i <= cs@.len(),
            views(out@) + split_ws_from(cs@.skip(i as int), cur@) == tokens(s@),
        decreases cs.len() - i,
    {
        let c = cs[i];
        let ghost rest = cs@.skip(i + 1);
        let ghost here = cs@.skip(i as int);
        proof {
            assert(here.drop_first() == rest);
            assert(here[0] == c);
            if is_ascii_ws(c) {
                assert(split_ws_from(here, cur@) == (if cur@.len() > 0 { seq![cur@] } else { seq![] })
                    + split_ws_from(rest, seq![]));
            } else {
                assert(split_ws_from(here, cur@) == split_ws_from(rest, cur@.push(c)));
            }
        }
        if c == ' ' || c == '\t' || c == '\n' || c == '\x0C' || c == '\r' {
            if cur.len() > 0 {
                let t = string_of(cur.as_slice());
                proof {
                    assert(views(out@.push(t)) =~= views(out@) + seq![cur@]);
                    assert(views(out@) + seq![cur@] + split_ws_from(rest, seq![]) =~= views(out@)
                        + (seq![cur@] + split_ws_from(rest, seq![])));
                }
                out.push(t);
                cur = Vec::new();
            } else {
                assert(cur@ =~= seq![]);
                assert(seq![] + split_ws_from(rest, seq![]) =~= split_ws_from(rest, seq![]));
            }
        } else {
            cur.push(c);
        }
        i = i + 1;
        assert(cs@.skip(i as int) == rest);
    }
    proof {
        assert(cs@.skip(i as int).len() == 0);
    }
    if cur.len() > 0 {
        let t = string_of(cur.as_slice());
        proof {
            assert(views(out@.push(t)) =~= views(out@) + seq![cur@]);
        }
        out.push(t);
    } else {
        assert(views(out@) + seq![] =~= views(out@));
    }
    out
}

/// Whether `c` has the Unicode `White_Space` property.
pub fn is_whitespace_char(c: char) -> (r: bool)
    ensures
        r == is_unicode_ws(c),
{
    let u = c as u32;
    (0x09 <= u && u <= 0x0D) || u == 0x20 || u == 0x85 || u == 0xA0 || u == 0x1680 || (0x2000
        <= u && u <= 0x200A) || u == 0x2028 || u == 0x2029 || u == 0x202F || u == 0x205F || u
        == 0x3000
}

/// The cell delimiter token `\cell` starts at position `i` of `s`.
pub open spec fn cell_token_at(s: Seq<char>, i: int) -> bool {
    &&& 0 <= i
    &&& i + 5 <= s.len()
    &&& s[i] == '\\'
    &&& s[i + 1] == 'c'
    &&& s[i + 2] == 'e'
    &&& s[i + 3] == 'l'
    &&& s[i + 4] == 'l'
}

/// `s` with each `\cell` token removed, scanning from the left and resuming
/// after each removed token (as `str::replace` with an empty replacement does).
pub open spec fn remove_cell_tokens(s: Seq<char>) -> Seq<char>
    decreases s.len(),
{
    if s.len() == 0 {
        s
    } else if cell_token_at(s, 0) {
        remove_cell_tokens(s.skip(5))
    } else {
        seq![s[0]] + remove_cell_tokens(s.drop_first())
    }
}

/// `s` without its leading whitespace.
pub open spec fn trim_start(s: Seq<char>) -> Seq<char>
    decreases s.len(),
{
    if s.len() > 0 && is_unicode_ws(s[0]) {
        trim_start(s.drop_first())
    } else {
        s
    }
}

/// `s` without its trailing whitespace.
pub open spec fn trim_end(s: Seq<char>) -> Seq<char>
    decreases s.len(),
{
    if s.len() > 0 && is_unicode_ws(s.last()) {
        trim_end(s.drop_last())
    } else {
        s
    }
}

/// `s` without leading and trailing whitespace, as `str::trim` gives it.
pub open spec fn trim(s: Seq<char>) -> Seq<char> {
    trim_end(trim_start(s))
}

/// The text of a cell: its characters with the `\cell` tokens removed, then
/// trimmed.
pub open spec fn clean_cell(s: Seq<char>) -> Seq<char> {
    trim(remove_cell_tokens(s))
}

/// The cell delimiter token `\cell`.
pub open spec fn cell_token() -> Seq<char> {
    seq!['\\', 'c', 'e', 'l', 'l']
}

/// Text in which the `\cell` token does not occur is left unchanged.
pub proof fn lemma_remove_without_token(s: Seq<char>)
    requires
        forall|j: int| !cell_token_at(s, j),
    ensures
        remove_cell_tokens(s) == s,
    decreases s.len(),
{
    if s.len() > 0 {
        let t = s.drop_first();
        assert forall|j: int| !cell_token_at(t, j) by {
            assert(!cell_token_at(s, j + 1));
        }
        assert(!cell_token_at(s, 0));
        lemma_remove_without_token(t);
        assert(seq![s[0]] + t =~= s);
    }
}

/// The first `\cell` token of a text is removed, the text before it is kept,
/// and the removal goes on after it.
pub proof fn lemma_remove_first_token(p: Seq<char>, q: Seq<char>)
    requires
        forall|j: int| j < p.len() ==> !cell_token_at(p + cell_token() + q, j),
    ensures
        remove_cell_tokens(p + cell_token() + q) == p + remove_cell_tokens(q),
    decreases p.len(),
{
    let s = p + cell_token() + q;
    if p.len() == 0 {
        assert(s =~= cell_token() + q);
        assert(cell_token_at(s, 0));
        assert(s.skip(5) =~= q);
        assert(p + remove_cell_tokens(q) =~= remove_cell_tokens(q));
    } else {
        let p_rest = p.drop_first();
        assert(s.drop_first() =~= p_rest + cell_token() + q);
        assert forall|j: int| j < p_rest.len() implies !cell_token_at(p_rest + cell_token() + q, j) by {
            assert(!cell_token_at(s, j + 1));
        }
        assert(!cell_token_at(s, 0));
        lemma_remove_first_token(p_rest, q);
        assert(seq![s[0]] + (p_rest + remove_cell_tokens(q)) =~= p + remove_cell_tokens(q));
    }
}

/// What `trim_start` leaves is empty or starts with a non-whitespace character.
proof fn lemma_trim_start_front(s: Seq<char>)
    ensures
        trim_start(s).len() > 0 ==> !is_unicode_ws(trim_start(s)[0]),
    decreases s.len(),
{
    if s.len() > 0 && is_unicode_ws(s[0]) {
        lemma_trim_start_front(s.drop_first());
    }
}

/// What `trim_end` leaves is a prefix that is empty or ends with a
/// non-whitespace character.
proof fn lemma_trim_end_prefix(s: Seq<char>)
    ensures
        trim_end(s).len() <= s.len(),
        trim_end(s) == s.subrange(0, trim_end(s).len() as int),
        trim_end(s).len() > 0 ==> !is_unicode_ws(trim_end(s).last()),
    decreases s.len(),
{
    if s.len() > 0 && is_unicode_ws(s.last()) {
        lemma_trim_end_prefix(s.drop_last());
        assert(s.drop_last().subrange(0, trim_end(s).len() as int) =~= s.subrange(
            0,
            trim_end(s).len() as int,
        ));
    } else {
        assert(s.subrange(0, s.len() as int) =~= s);
    }
}

/// A trimmed text that is not empty neither starts nor ends with whitespace.
pub proof fn lemma_trim_edges(s: Seq<char>)
    ensures
        trim(s).len() > 0 ==> !is_unicode_ws(trim(s)[0]) && !is_unicode_ws(trim(s).last()),
{
    lemma_trim_start_front(s);
    lemma_trim_end_prefix(trim_start(s));
    if trim(s).len() > 0 {
        assert(trim(s)[0] == trim_start(s)[0]);
    }
}

/// Removes the `\cell` tokens from `s`.
pub fn remove_cell_token(s: &Vec<char>) -> (r: Vec<char>)
    ensures
        r@ == remove_cell_tokens(s@),
{
    let mut out: Vec<char> = Vec::new();
    let mut i: usize = 0;
    let n = s.len();
    proof {
        assert(s@.skip(0) == s@);
        assert(out@ + remove_cell_tokens(s@) =~= remove_cell_tokens(s@));
    }
    while i < n
        invariant
            n == s@.len(),
            i <= n,
            out@ + remove_cell_tokens(s@.skip(i as int)) == remove_cell_tokens(s@),
        decreases n - i,
    {
        let ghost here = s@.skip(i as int);
        if n - i >= 5 && s[i] == '\\' && s[i + 1] == 'c' && s[i + 2] == 'e' && s[i + 3] == 'l'
            && s[i + 4] == 'l' {
            proof {
                assert(cell_token_at(here, 0));
                assert(here.skip(5) =~= s@.skip(i + 5));
            }
            i = i + 5;
        } else {
            proof {
                assert(!cell_token_at(here, 0));
                assert(here.drop_first() =~= s@.skip(i + 1));
                assert(out@.push(s[i as int]) + remove_cell_tokens(s@.skip(i + 1)) =~= out@ + (
                seq![here[0]] + remove_cell_tokens(here.drop_first())));
            }
            out.push(s[i]);
            i = i + 1;
        }
    }
    proof {
        assert(s@.skip(i as int).len() == 0);
        assert(out@ + remove_cell_tokens(s@.skip(i as int)) =~= out@);
    }
    out
}

/// `s` without leading and trailing whitespace.
pub fn trim_chars(s: &Vec<char>) -> (r: Vec<char>)
    ensures
        r@ == trim(s@),
{
    let n = s.len();
    let mut a: usize = 0;
    proof {
        assert(s@.skip(0) == s@);
    }
    while a < n && is_whitespace_char(s[a])
        invariant
            n == s@.len(),
            a <= n,
            trim_start(s@.skip(a as int)) == trim_start(s@),
        decreases n - a,
    {
        proof {
            assert(s@.skip(a as int).drop_first() =~= s@.skip(a + 1));
        }
        a = a + 1;
    }
    let ghost front = s@.skip(a as int);
    assert(trim_start(s@) == front);
    let mut b: usize = n;
    proof {
        assert(s@.subrange(a as int, n as int) =~= front);
    }
    while b > a && is_whitespace_char(s[b - 1])
        invariant
            n == s@.len(),
            a <= b <= n,
            trim_end(s@.subrange(a as int, b as int)) == trim_end(front),
        decreases b,
    {
        proof {
            assert(s@.subrange(a as int, b as int).drop_last() =~= s@.subrange(
                a as int,
                b - 1,
            ));
        }
        b = b - 1;
    }
    let r = vstd::slice::slice_subrange(s.as_slice(), a, b);
    let mut out: Vec<char> = Vec::new();
    let mut k: usize = 0;
    while k < r.len()
        invariant
            r@ == s@.subrange(a as int, b as int),
            k <= r@.len(),
            out@ == r@.take(k as int),
        decreases r.len() - k,
    {
        proof {
            assert(r@.take(k + 1) =~= r@.take(k as int).push(r@[k as int]));
        }
        out.push(r[k]);
        k = k + 1;
    }
    assert(out@ =~= r@);
    out
}

} // verus!
