//! Issues organ: scrubbing personal data and secrets out of reports,
//! issue file names and contents, reading issue files back, and the tail
//! of the friction log.

use vstd::prelude::*;
use crate::sdk::{ArgsView, OrganArgs, has_key, op_of, param_or};
use crate::shell::{byte_len, utf8_len, utf8_len_from};
use crate::text::{ascii_lower, ascii_lower_char, chars_of, is_ws, char_is_ws, lowercase, lower_ascii_char, occurs_at, push_char, push_chars, string_from_chars};

verus! {

/// A character that ends a token: whitespace, a quote, a comma or a
/// closing bracket.
pub open spec fn is_token_end(c: char) -> bool {
    is_ws(c) || c == '"' || c == '\'' || c == ',' || c == ')' || c == ']' || c == '}'
}

/// The number of characters before the first token end in `s` (all of
/// them when there is none).
pub open spec fn token_extent(s: Seq<char>) -> nat
    decreases s.len(),
{
    if s.len() == 0 || is_token_end(s[0]) {
        0
    } else {
        1 + token_extent(s.drop_first())
    }
}

/// What a secret is replaced with.
pub open spec fn marker() -> Seq<char> {
    "<redacted-token>"@
}

/// A token never runs past the end of the text.
pub proof fn lemma_token_extent_bound(s: Seq<char>)
    ensures
        token_extent(s) <= s.len(),
    decreases s.len(),
{
    if s.len() > 0 && !is_token_end(s[0]) {
        lemma_token_extent_bound(s.drop_first());
    }
}

/// A character as `str::to_lowercase` writes it.
pub open spec fn char_lowercase(c: char) -> Seq<char> {
    lowercase(seq![c])
}

/// Whether the characters of the line from `i` on, each lowercased
/// (`str::to_lowercase`), spell the prefix `p`.
pub open spec fn lower_match_at(line: Seq<char>, p: Seq<char>, i: int) -> bool {
    &&& 0 <= i
    &&& i + p.len() <= line.len()
    &&& forall|k: int| 0 <= k < p.len() ==> #[trigger] char_lowercase(line[i + k]) == seq![p[k]]
}

/// The first index at or after `from` where the line spells `p` so.
pub open spec fn first_match(line: Seq<char>, p: Seq<char>, from: int) -> Option<int>
    decreases line.len() - from,
{
    if from < 0 || from + p.len() > line.len() {
        None
    } else if lower_match_at(line, p, from) {
        Some(from)
    } else {
        first_match(line, p, from + 1)
    }
}

/// A match found from `from` on lies at or after `from` and fits in the
/// line.
pub proof fn lemma_first_match_bound(line: Seq<char>, p: Seq<char>, from: int)
    ensures
        first_match(line, p, from) matches Some(j) ==> from <= j && j + p.len() <= line.len() && lower_match_at(
            line,
            p,
            j,
        ),
    decreases line.len() - from,
{
    if !(from < 0 || from + p.len() > line.len()) && !lower_match_at(line, p, from) {
        lemma_first_match_bound(line, p, from + 1);
    }
}

/// The line after redacting, from index `from` on, every token that
/// starts with `p` (each character matched as `str::to_lowercase` writes
/// it) and runs for more than `p`'s length plus four bytes; the token is
/// the prefix and then the run of characters after the prefix up to the
/// first token end, so a prefix that ends in a space (`bearer `) takes in
/// the word after it. The search resumes after each marker, or after a
/// prefix too short to redact.
pub open spec fn redact_from(line: Seq<char>, p: Seq<char>, from: int) -> Seq<char>
    decreases line.len() - from,
{
    if from < 0 || from > line.len() || p.len() == 0 {
        line
    } else {
        match first_match(line, p, from) {
            None => line,
            Some(abs) => {
                proof {
                    lemma_first_match_bound(line, p, from);
                }
                let tl = p.len() + token_extent(line.skip(abs + p.len()));
                proof {
                    lemma_token_extent_bound(line.skip(abs + p.len()));
                }
                if byte_len(line.skip(abs).take(tl as int)) > p.len() + 4 {
                    proof {
                        reveal_strlit("<redacted-token>");
                        if tl == 0 {
                            assert(line.skip(abs).take(0) =~= Seq::<char>::empty());
                        }
                    }
                    redact_from(line.take(abs) + marker() + line.skip(abs + tl), p, abs + 16)
                } else {
                    redact_from(line, p, abs + p.len())
                }
            },
        }
    }
}

/// The token prefixes that mark a secret, in the order they are searched.
pub open spec fn token_prefixes() -> Seq<Seq<char>> {
    seq!["sk-"@, "ghp_"@, "gho_"@, "github_pat_"@, "key-"@, "bearer "@]
}

/// A line with each prefix's tokens redacted in turn.
pub open spec fn redact_with(line: Seq<char>, ps: Seq<Seq<char>>) -> Seq<char>
    decreases ps.len(),
{
    if ps.len() == 0 {
        line
    } else {
        redact_with(redact_from(line, ps[0], 0), ps.drop_first())
    }
}

/// The redacted lines, each followed by a newline.
pub open spec fn redacted_lines(ls: Seq<Seq<char>>) -> Seq<char>
    decreases ls.len(),
{
    if ls.len() == 0 {
        Seq::empty()
    } else {
        redacted_lines(ls.drop_last()) + redact_with(ls.last(), token_prefixes()) + seq!['\n']
    }
}

/// A text with its secrets redacted line by line; the text keeps its
/// final newline only if it had one.
pub open spec fn redacted(s: Seq<char>) -> Seq<char> {
    let body = redacted_lines(crate::text::lines(s));
    if !(s.len() > 0 && s.last() == '\n') && body.len() > 0 && body.last() == '\n' {
        body.drop_last()
    } else {
        body
    }
}

fn token_end_char(c: char) -> (r: bool)
    ensures
        r == is_token_end(c),
{
    char_is_ws(c) || c == '"' || c == '\'' || c == ',' || c == ')' || c == ']' || c == '}'
}

/// Each character of a line as `str::to_lowercase` writes it.
fn lowered_chars(s: &[char]) -> (r: Vec<Vec<char>>)
    ensures
        r@.len() == s@.len(),
        forall|i: int| 0 <= i < s@.len() ==> #[trigger] r@[i]@ == char_lowercase(s@[i]),
{
    let mut r: Vec<Vec<char>> = Vec::new();
    let mut i: usize = 0;
    while i < s.len()
        invariant
            i <= s@.len(),
            r@.len() == i,
            forall|k: int| 0 <= k < i ==> #[trigger] r@[k]@ == char_lowercase(s@[k]),
        decreases s@.len() - i,
    {
        let mut one = String::new();
        push_char(&mut one, s[i]);
        assert(one@ =~= seq![s@[i as int]]);
        let low = crate::text::to_lower(one.as_str());
        r.push(chars_of(low.as_str()));
        i = i + 1;
    }
    r
}

/// The first index at or after `from` where the line spells `p`, its
/// characters lowercased as `lw` holds them.
fn find_match(s: &[char], lw: &Vec<Vec<char>>, p: &[char], from: usize) -> (r: Option<usize>)
    requires
        lw@.len() == s@.len(),
        forall|i: int| 0 <= i < s@.len() ==> #[trigger] lw@[i]@ == char_lowercase(s@[i]),
        from <= s@.len(),
    ensures
        r matches Some(j) ==> first_match(s@, p@, from as int) == Some(j as int),
        r is None ==> first_match(s@, p@, from as int) is None,
{
    let mut i: usize = from;
    while i <= s.len() && p.len() <= s.len() - i
        invariant
            from <= i <= s@.len() + 1,
            i <= s@.len() ==> first_match(s@, p@, from as int) == first_match(s@, p@, i as int),
            i > s@.len() ==> first_match(s@, p@, from as int) is None,
            lw@.len() == s@.len(),
            forall|q: int| 0 <= q < s@.len() ==> #[trigger] lw@[q]@ == char_lowercase(s@[q]),
        decreases s@.len() + 1 - i,
    {
        let mut k: usize = 0;
        let mut ok = true;
        while k < p.len()
            invariant
                k <= p@.len(),
                i + p@.len() <= s@.len(),
                s@.len() <= usize::MAX,
                lw@.len() == s@.len(),
                forall|q: int| 0 <= q < s@.len() ==> #[trigger] lw@[q]@ == char_lowercase(s@[q]),
                ok == forall|m: int| 0 <= m < k ==> #[trigger] char_lowercase(s@[i + m]) == seq![p@[m]],
            decreases p@.len() - k,
        {
            let c = &lw[i + k];
            let one = c.len() == 1 && c[0] == p[k];
            assert(one == (lw@[i + k]@ == seq![p@[k as int]])) by {
                if c@.len() == 1 {
                    if c@[0] == p@[k as int] {
                        assert(c@ =~= seq![p@[k as int]]);
                    }
                }
            }
            ok = ok && one;
            k = k + 1;
        }
        if ok {
            assert(lower_match_at(s@, p@, i as int));
            return Some(i);
        }
        assert(!lower_match_at(s@, p@, i as int));
        i = i + 1;
    }
    None
}

fn token_extent_at(s: &[char], a: usize) -> (r: usize)
    requires
        a <= s@.len(),
    ensures
        r == token_extent(s@.skip(a as int)),
        a + r <= s@.len(),
{
    let mut i: usize = a;
    assert(s@.skip(a as int) =~= s@.skip(i as int));
    while i < s.len() && !token_end_char(s[i])
        invariant
            a <= i <= s@.len(),
            token_extent(s@.skip(a as int)) == (i - a) + token_extent(s@.skip(i as int)),
        decreases s@.len() - i,
    {
        assert(s@.skip(i as int).drop_first() =~= s@.skip(i + 1));
        i = i + 1;
    }
    i - a
}

/// Redact the tokens that start with `p` in one line.
fn redact_prefix(line: Vec<char>, p: &[char]) -> (r: Vec<char>)
    requires
        p@.len() > 0,
    ensures
        r@ == redact_from(line@, p@, 0),
{
    let mut cur = line;
    let mut from: usize = 0;
    let ghost goal = redact_from(line@, p@, 0);
    while from <= cur.len()
        invariant_except_break
            from <= cur@.len(),
        invariant
            p@.len() > 0,
            redact_from(cur@, p@, from as int) == goal,
        ensures
            cur@ == goal,
        decreases cur@.len() - from,
    {
        let lw = lowered_chars(cur.as_slice());
        match find_match(cur.as_slice(), &lw, p, from) {
            None => {
                break;
            },
            Some(abs) => {
                proof {
                    lemma_first_match_bound(cur@, p@, from as int);
                }
                assert(abs + p@.len() <= cur@.len());
                let ext = token_extent_at(cur.as_slice(), abs + p.len());
                let tl = p.len() + ext;
                let whole = utf8_len_from(cur.as_slice(), abs);
                let after = utf8_len_from(cur.as_slice(), abs + tl);
                proof {
                    lemma_byte_len_split(cur@.skip(abs as int), tl as int);
                    assert(cur@.skip(abs as int).skip(tl as int) =~= cur@.skip(abs + tl));
                }
                let tok_bytes = whole - after;
                if tok_bytes > (p.len() as u128) + 4 {
                    proof {
                        if tl == 0 {
                            assert(cur@.skip(abs as int).take(0) =~= Seq::<char>::empty());
                        }
                    }
                    let mut next: Vec<char> = Vec::new();
                    let mut k: usize = 0;
                    while k < abs
                        invariant
                            k <= abs <= cur@.len(),
                            next@ == cur@.take(k as int),
                        decreases abs - k,
                    {
                        next.push(cur[k]);
                        assert(cur@.take(k as int).push(cur@[k as int]) =~= cur@.take(k + 1));
                        k = k + 1;
                    }
                    let mk = chars_of("<redacted-token>");
                    proof {
                        reveal_strlit("<redacted-token>");
                    }
                    let mut m: usize = 0;
                    while m < mk.len()
                        invariant
                            m <= mk@.len(),
                            mk@ == marker(),
                            next@ == cur@.take(abs as int) + mk@.take(m as int),
                        decreases mk@.len() - m,
                    {
                        next.push(mk[m]);
                        assert(cur@.take(abs as int) + mk@.take(m as int).push(mk@[m as int]) =~= cur@.take(
                            abs as int,
                        ) + mk@.take(m + 1));
                        m = m + 1;
                    }
                    let mut q: usize = abs + tl;
                    assert(mk@.take(mk@.len() as int) =~= mk@);
                    while q < cur.len()
                        invariant
                            abs + tl <= q <= cur@.len(),
                            next@ == cur@.take(abs as int) + marker() + cur@.subrange(abs + tl, q as int),
                        decreases cur@.len() - q,
                    {
                        next.push(cur[q]);
                        assert(cur@.take(abs as int) + marker() + cur@.subrange(abs + tl, q as int).push(
                            cur@[q as int],
                        ) =~= cur@.take(abs as int) + marker() + cur@.subrange(abs + tl, q + 1));
                        q = q + 1;
                    }
                    assert(cur@.subrange(abs + tl, cur@.len() as int) =~= cur@.skip(abs + tl));
                    assert(next@.len() == abs + 16 + (cur@.len() - abs - tl));
                    let nl = next.len();
                    assert(abs + 16 <= nl);
                    cur = next;
                    from = abs + 16;
                } else {
                    from = abs + p.len();
                }
            },
        }
    }
    cur
}

proof fn lemma_byte_len_split(s: Seq<char>, k: int)
    requires
        0 <= k <= s.len(),
    ensures
        byte_len(s) == byte_len(s.take(k)) + byte_len(s.skip(k)),
    decreases k,
{
    if k == 0 {
        assert(s.take(0) =~= Seq::<char>::empty());
        assert(s.skip(0) =~= s);
    } else {
        lemma_byte_len_split(s.drop_first(), k - 1);
        assert(s.take(k).drop_first() =~= s.drop_first().take(k - 1));
        assert(s.drop_first().skip(k - 1) =~= s.skip(k));
    }
}

/// Redact every secret token in `s`, line by line.
pub fn redact_tokens(s: &str) -> (r: String)
    ensures
        r@ == redacted(s@),
{
    let cs = chars_of(s);
    let ls = crate::text::split_lines(cs.as_slice());
    let ghost lv = ls@.map_values(|l: Vec<char>| l@);
    let mut pv: Vec<Vec<char>> = Vec::new();
    pv.push(chars_of("sk-"));
    pv.push(chars_of("ghp_"));
    pv.push(chars_of("gho_"));
    pv.push(chars_of("github_pat_"));
    pv.push(chars_of("key-"));
    pv.push(chars_of("bearer "));
    proof {
        reveal_strlit("sk-");
        reveal_strlit("ghp_");
        reveal_strlit("gho_");
        reveal_strlit("github_pat_");
        reveal_strlit("key-");
        reveal_strlit("bearer ");
        assert forall|k: int| 0 <= k < 6 implies #[trigger] pv@[k]@ == token_prefixes()[k] by {}
        assert forall|k: int| 0 <= k < 6 implies #[trigger] token_prefixes()[k].len() > 0 by {}
    }
    let mut res: Vec<char> = Vec::new();
    let mut i: usize = 0;
    while i < ls.len()
        invariant
            i <= ls@.len(),
            lv == ls@.map_values(|l: Vec<char>| l@),
            pv@.len() == 6,
            forall|k: int| 0 <= k < 6 ==> #[trigger] pv@[k]@ == token_prefixes()[k],
            forall|k: int| 0 <= k < 6 ==> #[trigger] token_prefixes()[k].len() > 0,
            res@ == redacted_lines(lv.take(i as int)),
        decreases ls@.len() - i,
    {
        let mut line = crate::text::slice_chars(ls[i].as_slice(), 0, ls[i].len());
        assert(line@ =~= lv[i as int]);
        let mut k: usize = 0;
        assert(token_prefixes().skip(0) =~= token_prefixes());
        while k < 6
            invariant
                k <= 6,
                i < lv.len(),
                pv@.len() == 6,
                forall|q: int| 0 <= q < 6 ==> #[trigger] pv@[q]@ == token_prefixes()[q],
                forall|q: int| 0 <= q < 6 ==> #[trigger] token_prefixes()[q].len() > 0,
                redact_with(line@, token_prefixes().skip(k as int)) == redact_with(lv[i as int], token_prefixes()),
            decreases 6 - k,
        {
            assert(token_prefixes().skip(k as int).drop_first() =~= token_prefixes().skip(k + 1));
            assert(token_prefixes()[k as int].len() > 0);
            line = redact_prefix(line, pv[k].as_slice());
            k = k + 1;
        }
        assert(token_prefixes().skip(6) =~= Seq::<Seq<char>>::empty());
        let ghost before = res@;
        let mut q: usize = 0;
        while q < line.len()
            invariant
                q <= line@.len(),
                res@ == before + line@.take(q as int),
            decreases line@.len() - q,
        {
            res.push(line[q]);
            assert(before + line@.take(q as int).push(line@[q as int]) =~= before + line@.take(q + 1));
            q = q + 1;
        }
        res.push('\n');
        assert(lv.take(i + 1).drop_last() =~= lv.take(i as int));
        assert(line@.take(line@.len() as int) =~= line@);
        assert(res@ =~= redacted_lines(lv.take(i + 1)));
        i = i + 1;
    }
    assert(lv.take(ls@.len() as int) =~= lv);
    let ends_nl = cs.len() > 0 && cs[cs.len() - 1] == '\n';
    if !ends_nl && res.len() > 0 && res[res.len() - 1] == '\n' {
        res.pop();
    }
    string_from_chars(res.as_slice())
}

/// `s` with every occurrence of the non-empty `p` replaced by `r`,
/// scanning left to right without overlaps (`str::replace`).
pub open spec fn replace_all(s: Seq<char>, p: Seq<char>, r: Seq<char>) -> Seq<char>
    decreases s.len(),
{
    if p.len() == 0 || s.len() == 0 {
        s
    } else if p.is_prefix_of(s) {
        r + replace_all(s.skip(p.len() as int), p, r)
    } else {
        seq![s[0]] + replace_all(s.drop_first(), p, r)
    }
}

/// Replace every occurrence of the non-empty `p` in `s` by `r`.
pub fn replace_text(s: &[char], p: &[char], r: &[char]) -> (out: Vec<char>)
    requires
        p@.len() > 0,
    ensures
        out@ == replace_all(s@, p@, r@),
{
    let mut out: Vec<char> = Vec::new();
    let mut i: usize = 0;
    assert(s@.skip(0) =~= s@);
    while i < s.len()
        invariant
            i <= s@.len(),
            p@.len() > 0,
            replace_all(s@, p@, r@) == out@ + replace_all(s@.skip(i as int), p@, r@),
        decreases s@.len() - i,
    {
        let ghost before = out@;
        if occurs_at(s, p, i) {
            assert(s@.skip(i as int).skip(p@.len() as int) =~= s@.skip(i + p@.len()));
            push_chars_vec(&mut out, r);
            assert(before + (r@ + replace_all(s@.skip(i + p@.len()), p@, r@)) =~= out@ + replace_all(
                s@.skip(i + p@.len()),
                p@,
                r@,
            ));
            i = i + p.len();
        } else {
            assert(s@.skip(i as int).drop_first() =~= s@.skip(i + 1));
            out.push(s[i]);
            assert(before + (seq![s@[i as int]] + replace_all(s@.skip(i + 1), p@, r@)) =~= out@
                + replace_all(s@.skip(i + 1), p@, r@));
            i = i + 1;
        }
    }
    assert(s@.skip(i as int) =~= Seq::<char>::empty());
    assert(out@ + Seq::<char>::empty() =~= out@);
    out
}

fn push_chars_vec(out: &mut Vec<char>, cs: &[char])
    ensures
        final(out)@ == old(out)@ + cs@,
{
    let mut k: usize = 0;
    let ghost base = out@;
    while k < cs.len()
        invariant
            k <= cs@.len(),
            out@ == base + cs@.take(k as int),
        decreases cs@.len() - k,
    {
        out.push(cs[k]);
        assert(base + cs@.take(k as int).push(cs@[k as int]) =~= base + cs@.take(k + 1));
        k = k + 1;
    }
    assert(cs@.take(cs@.len() as int) =~= cs@);
}

/// Replacing one character by one character keeps the length.
pub proof fn lemma_replace_char_len(s: Seq<char>, p: Seq<char>, r: Seq<char>)
    requires
        p.len() == 1,
        r.len() == 1,
    ensures
        replace_all(s, p, r).len() == s.len(),
    decreases s.len(),
{
    if s.len() > 0 {
        if p.is_prefix_of(s) {
            lemma_replace_char_len(s.skip(1), p, r);
        } else {
            lemma_replace_char_len(s.drop_first(), p, r);
        }
    }
}

/// A text with the user's name and home directory masked, then its secret
/// tokens redacted. The name counts only when it is longer than one byte;
/// the home directory is masked in its backslash form, its slash form and
/// as given.
pub open spec fn sanitized(text: Seq<char>, user: Option<Seq<char>>, home: Option<Seq<char>>) -> Seq<char> {
    let a = match user {
        Some(u) => if u.len() > 0 && byte_len(u) > 1 {
            replace_all(text, u, "<username>"@)
        } else {
            text
        },
        None => text,
    };
    let b = match home {
        Some(h) => if h.len() > 0 {
            let back = replace_all(h, "/"@, "\\"@);
            let fwd = replace_all(h, "\\"@, "/"@);
            replace_all(replace_all(replace_all(a, back, "~"@), fwd, "~"@), h, "~"@)
        } else {
            a
        },
        None => a,
    };
    redacted(b)
}

pub open spec fn opt_str(o: Option<&str>) -> Option<Seq<char>> {
    match o {
        Some(s) => Some(s@),
        None => None,
    }
}

/// Scrub personal data and secrets out of `text`, given the user's name
/// and home directory where the environment names them.
pub fn sanitize_pii(text: &str, user: Option<&str>, home: Option<&str>) -> (r: String)
    ensures
        r@ == sanitized(text@, opt_str(user), opt_str(home)),
{
    let mut out = chars_of(text);
    match user {
        Some(u) => {
            let uc = chars_of(u);
            if uc.len() > 0 && utf8_len(u) > 1 {
                let name = chars_of("<username>");
                out = replace_text(out.as_slice(), uc.as_slice(), name.as_slice());
            }
        },
        None => {},
    }
    match home {
        Some(h) => {
            let hc = chars_of(h);
            if hc.len() > 0 {
                let slash = chars_of("/");
                let bslash = chars_of("\\");
                let tilde = chars_of("~");
                proof {
                    reveal_strlit("/");
                    reveal_strlit("\\");
                    lemma_replace_char_len(h@, "/"@, "\\"@);
                    lemma_replace_char_len(h@, "\\"@, "/"@);
                }
                let back = replace_text(hc.as_slice(), slash.as_slice(), bslash.as_slice());
                let fwd = replace_text(hc.as_slice(), bslash.as_slice(), slash.as_slice());
                out = replace_text(out.as_slice(), back.as_slice(), tilde.as_slice());
                out = replace_text(out.as_slice(), fwd.as_slice(), tilde.as_slice());
                out = replace_text(out.as_slice(), hc.as_slice(), tilde.as_slice());
            }
        },
        None => {},
    }
    let joined = string_from_chars(out.as_slice());
    redact_tokens(joined.as_str())
}

/// What `char::is_alphanumeric` answers for a character: whether it is
/// alphabetic or numeric in Unicode.
pub uninterp spec fn alphanumeric(c: char) -> bool;

/// Wrapper for `char::is_alphanumeric`; its answer is named
/// `alphanumeric`.
#[verifier::external_body]
pub(crate) fn char_is_alphanumeric(c: char) -> (r: bool)
    ensures
        r == alphanumeric(c),
{
    c.is_alphanumeric()
}

/// The slug built from `cs` onto `acc`: alphanumerics kept in ASCII
/// lowercase, any other run turned into one hyphen (none at the start).
pub open spec fn slug_from(acc: Seq<char>, cs: Seq<char>) -> Seq<char>
    decreases cs.len(),
{
    if cs.len() == 0 {
        acc
    } else if alphanumeric(cs[0]) {
        slug_from(acc.push(ascii_lower_char(cs[0])), cs.drop_first())
    } else if acc.len() > 0 && acc.last() != '-' {
        slug_from(acc.push('-'), cs.drop_first())
    } else {
        slug_from(acc, cs.drop_first())
    }
}

/// `s` without its trailing hyphens.
pub open spec fn strip_trailing_hyphens(s: Seq<char>) -> Seq<char>
    decreases s.len(),
{
    if s.len() > 0 && s.last() == '-' {
        strip_trailing_hyphens(s.drop_last())
    } else {
        s
    }
}

/// The slug of a title: built from its first 40 characters, without
/// trailing hyphens, or `issue` when nothing is kept.
pub open spec fn slug(s: Seq<char>) -> Seq<char> {
    let raw = slug_from(Seq::empty(), s.take(if s.len() < 40 { s.len() as int } else { 40 }));
    if raw.len() == 0 {
        "issue"@
    } else {
        strip_trailing_hyphens(raw)
    }
}

/// The file-name slug of an issue title.
pub fn slugify(s: &str) -> (r: String)
    ensures
        r@ == slug(s@),
{
    let cs = chars_of(s);
    let n: usize = if cs.len() < 40 { cs.len() } else { 40 };
    let ghost src = s@.take(n as int);
    let mut out: Vec<char> = Vec::new();
    let mut i: usize = 0;
    assert(src.skip(0) =~= src);
    while i < n
        invariant
            i <= n <= cs@.len(),
            cs@ == s@,
            src == s@.take(n as int),
            slug_from(Seq::empty(), src) == slug_from(out@, src.skip(i as int)),
        decreases n - i,
    {
        let c = cs[i];
        assert(src.skip(i as int).drop_first() =~= src.skip(i + 1));
        assert(src.skip(i as int)[0] == c);
        if char_is_alphanumeric(c) {
            out.push(lower_ascii_char(c));
        } else if out.len() > 0 && out[out.len() - 1] != '-' {
            out.push('-');
        }
        i = i + 1;
    }
    assert(src.skip(n as int) =~= Seq::<char>::empty());
    if out.len() == 0 {
        return String::from_str("issue");
    }
    while out.len() > 0 && out[out.len() - 1] == '-'
        invariant
            strip_trailing_hyphens(slug_from(Seq::empty(), src)) == strip_trailing_hyphens(out@),
        decreases out@.len(),
    {
        let ghost o = out@;
        out.pop();
        assert(out@ =~= o.drop_last());
    }
    string_from_chars(out.as_slice())
}

/// A friction event as it is logged.
#[derive(Debug)]
pub struct FrictionRecord {
    pub category: String,
    pub summary: String,
    pub details: String,
    pub severity: String,
}

pub open spec fn or_default(s: Seq<char>, d: Seq<char>) -> Seq<char> {
    if s.len() == 0 {
        d
    } else {
        s
    }
}

fn text_or_default(s: &str, d: &str) -> (r: String)
    ensures
        r@ == or_default(s@, d@),
{
    if chars_of(s).len() == 0 {
        String::from_str(d)
    } else {
        String::from_str(s)
    }
}

/// The friction record for a report: the summary trimmed and scrubbed,
/// the details scrubbed, the category and severity defaulting to
/// `friction` and `normal`; an empty summary is refused.
pub fn friction_record(
    category: &str,
    summary: &str,
    details: &str,
    severity: &str,
    user: Option<&str>,
    home: Option<&str>,
) -> (r: Result<FrictionRecord, String>)
    ensures
        crate::text::trim(summary@).len() == 0 ==> (r matches Err(e) && e@ == "summary cannot be empty"@),
        crate::text::trim(summary@).len() > 0 ==> (r matches Ok(f) && f.summary@ == sanitized(
            crate::text::trim(summary@),
            opt_str(user),
            opt_str(home),
        ) && f.details@ == sanitized(details@, opt_str(user), opt_str(home)) && f.category@
            == or_default(category@, "friction"@) && f.severity@ == or_default(severity@, "normal"@)),
{
    let cs = chars_of(summary);
    let t = crate::text::trim_chars(cs.as_slice());
    if t.len() == 0 {
        return Err(String::from_str("summary cannot be empty"));
    }
    let ts = string_from_chars(t.as_slice());
    Ok(FrictionRecord {
        category: text_or_default(category, "friction"),
        summary: sanitize_pii(ts.as_str(), user, home),
        details: sanitize_pii(details, user, home),
        severity: text_or_default(severity, "normal"),
    })
}

/// A report ready to be written: its scrubbed title, category, file name
/// and markdown content.
#[derive(Debug)]
pub struct IssueReport {
    pub title: String,
    pub category: String,
    pub filename: String,
    pub content: String,
}

/// The markdown of an issue report.
pub open spec fn issue_markdown(title: Seq<char>, category: Seq<char>, ts: Seq<char>, os: Seq<char>, body: Seq<char>) -> Seq<char> {
    "# Issue: "@ + title + "\n\n- **Category**: "@ + category + "\n- **Timestamp**: "@ + ts
        + "\n- **OS**: "@ + os + "\n- **Presence Version**: 0.3.0-beta\n\n## Description\n"@ + body
        + "\n"@
}

/// Prepare an issue report: the title trimmed and scrubbed (an empty title
/// is refused), the body scrubbed, the category defaulting to `bug`, the
/// file named by the whole-second `stamp` and the title's slug, and the
/// content stamped with `ts` and the operating system `os`.
pub fn issue_report(
    title: &str,
    body: &str,
    category: &str,
    stamp: &str,
    ts: &str,
    os: &str,
    user: Option<&str>,
    home: Option<&str>,
) -> (r: Result<IssueReport, String>)
    ensures
        crate::text::trim(title@).len() == 0 ==> (r matches Err(e) && e@ == "title cannot be empty"@),
        crate::text::trim(title@).len() > 0 ==> (r matches Ok(rep) && {
            let t = sanitized(crate::text::trim(title@), opt_str(user), opt_str(home));
            let cat = or_default(category@, "bug"@);
            &&& rep.title@ == t
            &&& rep.category@ == cat
            &&& rep.filename@ == stamp@ + "-"@ + slug(t) + ".md"@
            &&& rep.content@ == issue_markdown(t, cat, ts@, os@, sanitized(body@, opt_str(user), opt_str(home)))
        }),
{
    let cs = chars_of(title);
    let tc = crate::text::trim_chars(cs.as_slice());
    if tc.len() == 0 {
        return Err(String::from_str("title cannot be empty"));
    }
    let traw = string_from_chars(tc.as_slice());
    let t = sanitize_pii(traw.as_str(), user, home);
    let b = sanitize_pii(body, user, home);
    let cat = text_or_default(category, "bug");
    let sl = slugify(t.as_str());
    let mut filename = String::new();
    crate::text::push_text(&mut filename, stamp);
    crate::text::push_text(&mut filename, "-");
    crate::text::push_text(&mut filename, sl.as_str());
    crate::text::push_text(&mut filename, ".md");
    let mut content = String::new();
    crate::text::push_text(&mut content, "# Issue: ");
    crate::text::push_text(&mut content, t.as_str());
    crate::text::push_text(&mut content, "\n\n- **Category**: ");
    crate::text::push_text(&mut content, cat.as_str());
    crate::text::push_text(&mut content, "\n- **Timestamp**: ");
    crate::text::push_text(&mut content, ts);
    crate::text::push_text(&mut content, "\n- **OS**: ");
    crate::text::push_text(&mut content, os);
    crate::text::push_text(&mut content, "\n- **Presence Version**: 0.3.0-beta\n\n## Description\n");
    crate::text::push_text(&mut content, b.as_str());
    crate::text::push_text(&mut content, "\n");
    Ok(IssueReport { title: t, category: cat, filename, content })
}

/// `s` without its leading repetitions of `p` (`trim_start_matches`).
pub open spec fn strip_leading_pat(s: Seq<char>, p: Seq<char>) -> Seq<char>
    decreases s.len(),
{
    if p.len() > 0 && p.is_prefix_of(s) {
        strip_leading_pat(s.skip(p.len() as int), p)
    } else {
        s
    }
}

fn strip_leading_pat_exec(s: &[char], p: &[char]) -> (r: Vec<char>)
    ensures
        r@ == strip_leading_pat(s@, p@),
{
    let mut i: usize = 0;
    assert(s@.skip(0) =~= s@);
    while p.len() > 0 && i <= s.len() && occurs_at(s, p, i)
        invariant
            i <= s@.len(),
            strip_leading_pat(s@, p@) == strip_leading_pat(s@.skip(i as int), p@),
        decreases s@.len() - i,
    {
        assert(s@.skip(i as int).skip(p@.len() as int) =~= s@.skip(i + p@.len()));
        i = i + p.len();
    }
    crate::text::skip_chars(s, i)
}

/// The title and category that an issue file records: the last
/// `# Issue: ` line and the last `- **Category**: ` line, each trimmed,
/// else the file name and `unknown`.
pub open spec fn issue_fields(acc: (Seq<char>, Seq<char>), ls: Seq<Seq<char>>) -> (Seq<char>, Seq<char>)
    decreases ls.len(),
{
    if ls.len() == 0 {
        acc
    } else {
        let l = ls[0];
        let next = if "# Issue: "@.is_prefix_of(l) {
            (crate::text::trim(strip_leading_pat(l, "# Issue: "@)), acc.1)
        } else if "- **Category**: "@.is_prefix_of(l) {
            (acc.0, crate::text::trim(strip_leading_pat(l, "- **Category**: "@)))
        } else {
            acc
        };
        issue_fields(next, ls.drop_first())
    }
}

/// An issue as listed: its file name, title and category.
#[derive(Debug)]
pub struct IssueSummary {
    pub filename: String,
    pub title: String,
    pub category: String,
}

/// Read the title and category back from an issue file.
pub fn summarize_issue(filename: &str, raw: &str) -> (r: IssueSummary)
    ensures
        r.filename@ == filename@,
        (r.title@, r.category@) == issue_fields((filename@, "unknown"@), crate::text::lines(raw@)),
{
    let cs = chars_of(raw);
    let ls = crate::text::split_lines(cs.as_slice());
    let ghost lv = ls@.map_values(|l: Vec<char>| l@);
    let title_kw = chars_of("# Issue: ");
    let cat_kw = chars_of("- **Category**: ");
    let mut title = chars_of(filename);
    let mut cat = chars_of("unknown");
    let mut i: usize = 0;
    assert(lv.skip(0) =~= lv);
    while i < ls.len()
        invariant
            i <= ls@.len(),
            lv == ls@.map_values(|l: Vec<char>| l@),
            lv == crate::text::lines(raw@),
            title_kw@ == "# Issue: "@,
            cat_kw@ == "- **Category**: "@,
            issue_fields((filename@, "unknown"@), lv) == issue_fields((title@, cat@), lv.skip(i as int)),
        decreases ls@.len() - i,
    {
        assert(lv.skip(i as int).drop_first() =~= lv.skip(i + 1));
        assert(lv.skip(i as int)[0] == ls@[i as int]@);
        let line = &ls[i];
        if crate::text::has_prefix(line.as_slice(), title_kw.as_slice()) {
            let s = strip_leading_pat_exec(line.as_slice(), title_kw.as_slice());
            title = crate::text::trim_chars(s.as_slice());
        } else if crate::text::has_prefix(line.as_slice(), cat_kw.as_slice()) {
            let s = strip_leading_pat_exec(line.as_slice(), cat_kw.as_slice());
            cat = crate::text::trim_chars(s.as_slice());
        }
        i = i + 1;
    }
    assert(lv.skip(i as int) =~= Seq::<Seq<char>>::empty());
    IssueSummary {
        filename: String::from_str(filename),
        title: string_from_chars(title.as_slice()),
        category: string_from_chars(cat.as_slice()),
    }
}

/// Whether a field written after the marker `p` on a line of its own is
/// read back as it was: it is one line, has no surrounding whitespace, and
/// does not itself start with the marker.
pub open spec fn reads_back(s: Seq<char>, p: Seq<char>) -> bool {
    !s.contains('\n') && crate::text::trim(s) == s && !p.is_prefix_of(s)
}

/// Whether none of the lines starts with the title or the category marker.
pub open spec fn quiet_lines(ls: Seq<Seq<char>>) -> bool {
    forall|i: int|
        0 <= i < ls.len() ==> !"# Issue: "@.is_prefix_of(#[trigger] ls[i]) && !"- **Category**: "@.is_prefix_of(
            ls[i],
        )
}

/// What follows the category line of an issue file.
pub open spec fn issue_tail(ts: Seq<char>, os: Seq<char>, body: Seq<char>) -> Seq<char> {
    "- **Timestamp**: "@ + ts + "\n- **OS**: "@ + os + "\n- **Presence Version**: 0.3.0-beta\n\n## Description\n"@
        + body + "\n"@
}

proof fn lemma_issue_fields_concat(acc: (Seq<char>, Seq<char>), a: Seq<Seq<char>>, b: Seq<Seq<char>>)
    ensures
        issue_fields(acc, a + b) == issue_fields(issue_fields(acc, a), b),
    decreases a.len(),
{
    if a.len() == 0 {
        assert(a + b =~= b);
    } else {
        assert((a + b)[0] == a[0]);
        assert((a + b).drop_first() =~= a.drop_first() + b);
        let l = a[0];
        let next = if "# Issue: "@.is_prefix_of(l) {
            (crate::text::trim(strip_leading_pat(l, "# Issue: "@)), acc.1)
        } else if "- **Category**: "@.is_prefix_of(l) {
            (acc.0, crate::text::trim(strip_leading_pat(l, "- **Category**: "@)))
        } else {
            acc
        };
        lemma_issue_fields_concat(next, a.drop_first(), b);
    }
}

proof fn lemma_issue_fields_quiet(acc: (Seq<char>, Seq<char>), ls: Seq<Seq<char>>)
    requires
        quiet_lines(ls),
    ensures
        issue_fields(acc, ls) == acc,
    decreases ls.len(),
{
    if ls.len() > 0 {
        assert(!"# Issue: "@.is_prefix_of(ls[0]) && !"- **Category**: "@.is_prefix_of(ls[0]));
        assert forall|i: int| 0 <= i < ls.drop_first().len() implies !"# Issue: "@.is_prefix_of(
            #[trigger] ls.drop_first()[i],
        ) && !"- **Category**: "@.is_prefix_of(ls.drop_first()[i]) by {
            assert(ls.drop_first()[i] == ls[i + 1]);
        }
        lemma_issue_fields_quiet(acc, ls.drop_first());
    }
}

/// A field line read back: the marker is stripped once, and what is left
/// is the field itself.
proof fn lemma_field_line(p: Seq<char>, s: Seq<char>)
    requires
        p.len() > 0,
        reads_back(s, p),
    ensures
        !(p + s).contains('\n') <== !p.contains('\n'),
        p.is_prefix_of(p + s),
        crate::text::trim(strip_leading_pat(p + s, p)) == s,
{
    assert((p + s).subrange(0, p.len() as int) =~= p);
    assert((p + s).skip(p.len() as int) =~= s);
    assert(p.is_prefix_of(p + s));
    assert(strip_leading_pat(p + s, p) == strip_leading_pat((p + s).skip(p.len() as int), p));
    assert(strip_leading_pat(s, p) == s);
    if !p.contains('\n') {
        assert(!(p + s).contains('\n')) by {
            if (p + s).contains('\n') {
                let k = choose|k: int| 0 <= k < (p + s).len() && (p + s)[k] == '\n';
                if k < p.len() {
                    assert(p[k] == '\n');
                } else {
                    assert(s[k - p.len()] == '\n');
                }
            }
        }
    }
}

/// Reading an issue file back gives the title and the category it was
/// written with, when each is one line without surrounding whitespace that
/// does not start with its own marker, and no later line of the file
/// starts with a marker.
pub proof fn lemma_issue_read_back(
    name: Seq<char>,
    title: Seq<char>,
    category: Seq<char>,
    ts: Seq<char>,
    os: Seq<char>,
    body: Seq<char>,
)
    requires
        reads_back(title, "# Issue: "@),
        reads_back(category, "- **Category**: "@),
        quiet_lines(crate::text::lines(issue_tail(ts, os, body))),
    ensures
        issue_fields((name, "unknown"@), crate::text::lines(issue_markdown(title, category, ts, os, body))) == (
            title,
            category,
        ),
{
    let tp = "# Issue: "@;
    let cp = "- **Category**: "@;
    let l0 = tp + title;
    let l2 = cp + category;
    let tail = issue_tail(ts, os, body);
    reveal_strlit("# Issue: ");
    reveal_strlit("- **Category**: ");
    reveal_strlit("\n\n- **Category**: ");
    reveal_strlit("- **Timestamp**: ");
    reveal_strlit("\n- **Timestamp**: ");
    assert(issue_markdown(title, category, ts, os, body) =~= l0 + seq!['\n'] + (Seq::<char>::empty() + seq!['\n'] + (l2
        + seq!['\n'] + tail)));
    lemma_field_line(tp, title);
    lemma_field_line(cp, category);
    assert(!Seq::<char>::empty().contains('\n'));
    crate::text::lemma_lines_first(l0, Seq::<char>::empty() + seq!['\n'] + (l2 + seq!['\n'] + tail));
    crate::text::lemma_lines_first(Seq::<char>::empty(), l2 + seq!['\n'] + tail);
    crate::text::lemma_lines_first(l2, tail);
    assert(l0.last() != '\r') by {
        if title.len() > 0 {
            crate::text::lemma_trimmed_last(title);
            assert(l0.last() == title.last());
        }
    }
    assert(l2.last() != '\r') by {
        if category.len() > 0 {
            crate::text::lemma_trimmed_last(category);
            assert(l2.last() == category.last());
        }
    }
    assert(crate::text::strip_cr(l0) == l0);
    assert(crate::text::strip_cr(l2) == l2);
    assert(crate::text::strip_cr(Seq::<char>::empty()) == Seq::<char>::empty());
    let head = seq![l0, Seq::<char>::empty(), l2];
    assert(crate::text::lines(issue_markdown(title, category, ts, os, body)) =~= head + crate::text::lines(tail));
    lemma_issue_fields_concat((name, "unknown"@), head, crate::text::lines(tail));
    assert(!cp.is_prefix_of(l0)) by {
        assert(l0[0] == '#');
        assert(cp[0] == '-');
    }
    assert(!tp.is_prefix_of(Seq::<char>::empty()));
    assert(!cp.is_prefix_of(Seq::<char>::empty()));
    assert(!tp.is_prefix_of(l2)) by {
        assert(l2[0] == '-');
        assert(tp[0] == '#');
    }
    reveal_with_fuel(issue_fields, 4);
    assert(issue_fields((name, "unknown"@), head) == (title, category));
    lemma_issue_fields_quiet((title, category), crate::text::lines(tail));
}

/// Whether an issue of category `cat` is listed under `filter`: every
/// issue for an empty filter, else those whose category equals it ignoring
/// ASCII case.
pub fn issue_listed(cat: &str, filter: &str) -> (r: bool)
    ensures
        r == (filter@.len() == 0 || ascii_lower(cat@) == ascii_lower(filter@)),
{
    if chars_of(filter).len() == 0 {
        return true;
    }
    let a = crate::text::to_ascii_lower(cat);
    let b = crate::text::to_ascii_lower(filter);
    a == b
}

/// The lines of `ls` that hold more than whitespace.
pub open spec fn nonblank(ls: Seq<Seq<char>>) -> Seq<Seq<char>>
    decreases ls.len(),
{
    if ls.len() == 0 {
        Seq::empty()
    } else if crate::text::trim(ls.last()).len() > 0 {
        nonblank(ls.drop_last()).push(ls.last())
    } else {
        nonblank(ls.drop_last())
    }
}

/// The last ten non-blank lines of the friction log (all of them when
/// there are fewer).
pub open spec fn recent_entries(raw: Seq<char>) -> Seq<Seq<char>> {
    let ls = nonblank(crate::text::lines(raw));
    if ls.len() > 10 {
        ls.skip(ls.len() - 10)
    } else {
        ls
    }
}

/// The friction log lines that the recent-friction sense reports.
pub fn recent_friction_lines(raw: &str) -> (r: Vec<String>)
    ensures
        r@.map_values(|s: String| s@) == recent_entries(raw@),
{
    let cs = chars_of(raw);
    let ls = crate::text::split_lines(cs.as_slice());
    let ghost lv = ls@.map_values(|l: Vec<char>| l@);
    let mut kept: Vec<String> = Vec::new();
    let mut i: usize = 0;
    while i < ls.len()
        invariant
            i <= ls@.len(),
            lv == ls@.map_values(|l: Vec<char>| l@),
            kept@.map_values(|s: String| s@) == nonblank(lv.take(i as int)),
        decreases ls@.len() - i,
    {
        assert(lv.take(i + 1).drop_last() =~= lv.take(i as int));
        assert(lv.take(i + 1).last() == ls@[i as int]@);
        let t = crate::text::trim_chars(ls[i].as_slice());
        if t.len() > 0 {
            let ghost before = kept@.map_values(|s: String| s@);
            kept.push(string_from_chars(ls[i].as_slice()));
            assert(kept@.map_values(|s: String| s@) =~= before.push(lv[i as int]));
        }
        i = i + 1;
    }
    assert(lv.take(ls@.len() as int) =~= lv);
    let n = kept.len();
    if n <= 10 {
        return kept;
    }
    let mut out: Vec<String> = Vec::new();
    let mut k: usize = n - 10;
    let ghost all = kept@.map_values(|s: String| s@);
    while k < n
        invariant
            n == kept@.len(),
            10 < n,
            n - 10 <= k <= n,
            all == kept@.map_values(|s: String| s@),
            out@.map_values(|s: String| s@) == all.subrange(n - 10, k as int),
        decreases n - k,
    {
        let ghost before = out@.map_values(|s: String| s@);
        assert(all[k as int] == kept@[k as int]@);
        out.push(String::from_str(kept[k].as_str()));
        assert(out@.map_values(|s: String| s@) =~= before.push(all[k as int]));
        assert(all.subrange(n - 10, k as int).push(all[k as int]) =~= all.subrange(n - 10, k + 1));
        k = k + 1;
    }
    assert(all.subrange(n - 10, n as int) =~= all.skip(n - 10));
    out
}

/// How a GitHub submission went.
#[derive(Debug)]
pub enum GithubOutcome {
    NotRequested,
    CliMissing,
    CliUnusable,
    Submitted { stdout: String },
    Refused { stderr: String },
    ExecFailed { error: String },
}

/// The status line reported for a GitHub submission.
pub open spec fn github_text(o: GithubOutcome) -> Seq<char> {
    match o {
        GithubOutcome::NotRequested => "local_only"@,
        GithubOutcome::CliMissing => "gh CLI not found on PATH"@,
        GithubOutcome::CliUnusable => "gh CLI not authenticated or installed"@,
        GithubOutcome::Submitted { stdout } => "submitted: "@ + crate::text::trim(stdout@),
        GithubOutcome::Refused { stderr } => "gh error: "@ + crate::text::trim(stderr@),
        GithubOutcome::ExecFailed { error } => "gh exec failed: "@ + error@,
    }
}

/// Describe how a GitHub submission went.
pub fn github_status(o: &GithubOutcome) -> (r: String)
    ensures
        r@ == github_text(*o),
{
    match o {
        GithubOutcome::NotRequested => String::from_str("local_only"),
        GithubOutcome::CliMissing => String::from_str("gh CLI not found on PATH"),
        GithubOutcome::CliUnusable => String::from_str("gh CLI not authenticated or installed"),
        GithubOutcome::Submitted { stdout } => {
            let mut r = String::from_str("submitted: ");
            let t = crate::text::trim_chars(chars_of(stdout.as_str()).as_slice());
            crate::text::push_chars(&mut r, t.as_slice());
            r
        },
        GithubOutcome::Refused { stderr } => {
            let mut r = String::from_str("gh error: ");
            let t = crate::text::trim_chars(chars_of(stderr.as_str()).as_slice());
            crate::text::push_chars(&mut r, t.as_slice());
            r
        },
        GithubOutcome::ExecFailed { error } => {
            let mut r = String::from_str("gh exec failed: ");
            crate::text::push_text(&mut r, error.as_str());
            r
        },
    }
}

/// The operations of the issues organ, with their arguments.
#[derive(Debug)]
pub enum IssuesOp {
    RecentFriction,
    Report { title: String, body: String, category: String, submit_github: bool },
    List { category: String },
    LogFriction { category: String, summary: String, details: String, severity: String },
}

/// The message for a request that names no operation of the organ.
pub open spec fn issues_usage() -> Seq<char> {
    "unknown tool or sense operation for organ-issues. Available: report_issue, log_friction, list_issues, recent_friction"@
}

/// Which operation a request selects, by its lowercased operation name and
/// the keys it gives, in this order: recent friction, report, list, log.
pub open spec fn issues_choice(a: ArgsView) -> int {
    let op = crate::text::lowercase(op_of(a));
    if op == "recent_friction"@ || op == "sense_recent_friction"@ || "recent"@.is_prefix_of(op) || (has_key(
        a,
        "sense"@,
    ) && !has_key(a, "log_friction"@)) {
        0
    } else if crate::text::contains_sub(op, "report"@) || has_key(a, "report_issue"@) || has_key(a, "title"@) {
        1
    } else if crate::text::contains_sub(op, "list"@) || has_key(a, "list_issues"@) {
        2
    } else if crate::text::contains_sub(op, "friction"@) || has_key(a, "log_friction"@) || has_key(
        a,
        "summary"@,
    ) {
        3
    } else {
        4
    }
}

/// Route a request of the issues organ to its operation.
pub fn issues_route(args: &OrganArgs) -> (r: Result<IssuesOp, String>)
    ensures
        issues_choice(args@) == 0 ==> r matches Ok(IssuesOp::RecentFriction),
        issues_choice(args@) == 1 ==> (r matches Ok(IssuesOp::Report { title, body, category, submit_github })
            && title@ == param_or(args@, "title"@, ""@) && body@ == param_or(
            args@,
            "body"@,
            param_or(args@, "description"@, ""@),
        ) && category@ == param_or(args@, "category"@, "bug"@) && submit_github == (has_key(
            args@,
            "submit_github"@,
        ) || has_key(args@, "github"@))),
        issues_choice(args@) == 2 ==> (r matches Ok(IssuesOp::List { category }) && category@ == param_or(
            args@,
            "category"@,
            ""@,
        )),
        issues_choice(args@) == 3 ==> (r matches Ok(IssuesOp::LogFriction { category, summary, details, severity })
            && category@ == param_or(args@, "category"@, "friction"@) && summary@ == param_or(
            args@,
            "summary"@,
            param_or(args@, "message"@, ""@),
        ) && details@ == param_or(args@, "details"@, ""@) && severity@ == param_or(
            args@,
            "severity"@,
            "normal"@,
        )),
        issues_choice(args@) == 4 ==> (r matches Err(e) && e@ == issues_usage()),
{
    let op = crate::text::to_lower(args.op());
    let o = op.as_str();
    if crate::text::same_text(o, "recent_friction") || crate::text::same_text(o, "sense_recent_friction")
        || starts_with_text(o, "recent") || (args.has("sense") && !args.has("log_friction")) {
        Ok(IssuesOp::RecentFriction)
    } else if crate::text::contains_text(o, "report") || args.has("report_issue") || args.has("title") {
        let title = String::from_str(args.get_or("title", ""));
        let body = String::from_str(args.get_or("body", args.get_or("description", "")));
        let category = String::from_str(args.get_or("category", "bug"));
        let submit_github = args.has("submit_github") || args.has("github");
        Ok(IssuesOp::Report { title, body, category, submit_github })
    } else if crate::text::contains_text(o, "list") || args.has("list_issues") {
        Ok(IssuesOp::List { category: String::from_str(args.get_or("category", "")) })
    } else if crate::text::contains_text(o, "friction") || args.has("log_friction") || args.has("summary") {
        let category = String::from_str(args.get_or("category", "friction"));
        let summary = String::from_str(args.get_or("summary", args.get_or("message", "")));
        let details = String::from_str(args.get_or("details", ""));
        let severity = String::from_str(args.get_or("severity", "normal"));
        Ok(IssuesOp::LogFriction { category, summary, details, severity })
    } else {
        Err(String::from_str(
            "unknown tool or sense operation for organ-issues. Available: report_issue, log_friction, list_issues, recent_friction",
        ))
    }
}

/// Whether `s` starts with `p`.
pub fn starts_with_text(s: &str, p: &str) -> (r: bool)
    ensures
        r == p@.is_prefix_of(s@),
{
    let sc = chars_of(s);
    let pc = chars_of(p);
    crate::text::has_prefix(sc.as_slice(), pc.as_slice())
}


} // verus!
