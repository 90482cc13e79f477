//! Character-level text utilities shared by the organs, with their
//! specifications over `Seq<char>`.

use vstd::prelude::*;

verus! {

/// Wrapper for `String::push`: appends one character.
#[verifier::external_body]
pub(crate) fn push_char(s: &mut String, c: char)
    ensures
        final(s)@ == old(s)@.push(c),
{
    s.push(c);
}

/// The characters of `s`, in order.
pub fn chars_of(s: &str) -> (r: Vec<char>)
    ensures
        r@ == s@,
{
    let mut r: Vec<char> = Vec::new();
    for c in it: s.chars()
        invariant
            r@ == it.seq().take(it.index() as int),
            it.seq() == s@,
    {
        r.push(c);
    }
    r
}

/// A `String` holding exactly the characters of `cs`.
pub fn string_from_chars(cs: &[char]) -> (r: String)
    ensures
        r@ == cs@,
{
    let mut r = String::new();
    let mut i: usize = 0;
    while i < cs.len()
        invariant
            i <= cs@.len(),
            r@ == cs@.take(i as int),
        decreases cs@.len() - i,
    {
        push_char(&mut r, cs[i]);
        assert(cs@.take(i as int).push(cs@[i as int]) =~= cs@.take(i + 1));
        i = i + 1;
    }
    assert(cs@.take(cs@.len() as int) =~= cs@);
    r
}


/// Unicode `White_Space`, the property that `char::is_whitespace` tests.
pub open spec fn is_ws(c: char) -> bool {
    let u = c as u32;
    ||| 0x09 <= u <= 0x0D
    ||| u == 0x20
    ||| u == 0x85
    ||| u == 0xA0
    ||| u == 0x1680
    ||| 0x2000 <= u <= 0x200A
    ||| u == 0x2028
    ||| u == 0x2029
    ||| u == 0x202F
    ||| u == 0x205F
    ||| u == 0x3000
}

/// `char::is_whitespace`.
pub fn char_is_ws(c: char) -> (b: bool)
    ensures
        b == is_ws(c),
{
    let u = c as u32;
    (0x09 <= u && u <= 0x0D) || u == 0x20 || u == 0x85 || u == 0xA0 || u == 0x1680 || (0x2000
        <= u && u <= 0x200A) || u == 0x2028 || u == 0x2029 || u == 0x202F || u == 0x205F || u
        == 0x3000
}

/// `s` with its leading whitespace removed (`str::trim_start`).
pub open spec fn trim_start(s: Seq<char>) -> Seq<char>
    decreases s.len(),
{
    if s.len() > 0 && is_ws(s[0]) {
        trim_start(s.drop_first())
    } else {
        s
    }
}

/// `s` with its trailing whitespace removed (`str::trim_end`).
pub open spec fn trim_end(s: Seq<char>) -> Seq<char>
    decreases s.len(),
{
    if s.len() > 0 && is_ws(s.last()) {
        trim_end(s.drop_last())
    } else {
        s
    }
}

/// `s` with whitespace removed at both ends (`str::trim`).
pub open spec fn trim(s: Seq<char>) -> Seq<char> {
    trim_end(trim_start(s))
}

/// A line that ended in `"\n"` loses one trailing `'\r'`.
pub open spec fn strip_cr(line: Seq<char>) -> Seq<char> {
    if line.len() > 0 && line.last() == '\r' {
        line.drop_last()
    } else {
        line
    }
}

/// The lines that `str::lines` yields from `cur + rest`, where `cur` is the
/// part of the current line already read: a line ends at each `'\n'` (and
/// then loses one trailing `'\r'`); a final line without `'\n'` is kept as
/// it is, and an empty final line is not yielded.
pub open spec fn lines_from(cur: Seq<char>, rest: Seq<char>) -> Seq<Seq<char>>
    decreases rest.len(),
{
    if rest.len() == 0 {
        if cur.len() == 0 {
            Seq::empty()
        } else {
            seq![cur]
        }
    } else if rest[0] == '\n' {
        seq![strip_cr(cur)] + lines_from(Seq::empty(), rest.drop_first())
    } else {
        lines_from(cur.push(rest[0]), rest.drop_first())
    }
}

/// The lines of `s`, as `str::lines` yields them.
pub open spec fn lines(s: Seq<char>) -> Seq<Seq<char>> {
    lines_from(Seq::empty(), s)
}

/// The pieces of `ls` joined with `"\n"` between them (`join("\n")`).
pub open spec fn join_nl(ls: Seq<Seq<char>>) -> Seq<char>
    decreases ls.len(),
{
    if ls.len() == 0 {
        Seq::empty()
    } else if ls.len() == 1 {
        ls[0]
    } else {
        join_nl(ls.drop_last()) + seq!['\n'] + ls.last()
    }
}

/// The lines of `s`, each as a vector of characters.
pub fn split_lines(s: &[char]) -> (r: Vec<Vec<char>>)
    ensures
        r@.map_values(|l: Vec<char>| l@) == lines(s@),
{
    let mut done: Vec<Vec<char>> = Vec::new();
    let mut cur: Vec<char> = Vec::new();
    let mut i: usize = 0;
    assert(s@.skip(0) =~= s@);
    assert(done@.map_values(|l: Vec<char>| l@) =~= Seq::<Seq<char>>::empty());
    assert(cur@ =~= Seq::<char>::empty());
    while i < s.len()
        invariant
            i <= s@.len(),
            lines(s@) == done@.map_values(|l: Vec<char>| l@) + lines_from(cur@, s@.skip(i as int)),
        decreases s@.len() - i,
    {
        let ghost old_done = done@.map_values(|l: Vec<char>| l@);
        assert(s@.skip(i as int).drop_first() =~= s@.skip(i + 1));
        let c = s[i];
        if c == '\n' {
            let ghost old_cur = cur@;
            let line = strip_cr_vec(cur);
            done.push(line);
            cur = Vec::new();
            assert(done@.map_values(|l: Vec<char>| l@) =~= old_done + seq![strip_cr(old_cur)]);
        } else {
            cur.push(c);
        }
        i = i + 1;
    }
    if cur.len() > 0 {
        done.push(cur);
    }
    assert(done@.map_values(|l: Vec<char>| l@) =~= lines(s@));
    done
}

/// `strip_cr` on a vector.
pub fn strip_cr_vec(v: Vec<char>) -> (r: Vec<char>)
    ensures
        r@ == strip_cr(v@),
{
    let mut v = v;
    if v.len() > 0 && v[v.len() - 1] == '\r' {
        v.pop();
    }
    v
}

/// Reading on through text without a newline only extends the current line.
pub proof fn lemma_lines_from_append(cur: Seq<char>, a: Seq<char>, b: Seq<char>)
    requires
        !a.contains('\n'),
    ensures
        lines_from(cur, a + b) == lines_from(cur + a, b),
    decreases a.len(),
{
    if a.len() == 0 {
        assert(a + b =~= b);
        assert(cur + a =~= cur);
    } else {
        assert((a + b)[0] == a[0]);
        assert((a + b).drop_first() =~= a.drop_first() + b);
        assert(!a.drop_first().contains('\n')) by {
            if a.drop_first().contains('\n') {
                let k = choose|k: int| 0 <= k < a.drop_first().len() && a.drop_first()[k] == '\n';
                assert(a[k + 1] == '\n');
            }
        }
        assert(a[0] != '\n') by {
            if a[0] == '\n' {
                assert(a.contains('\n'));
            }
        }
        lemma_lines_from_append(cur.push(a[0]), a.drop_first(), b);
        assert(cur.push(a[0]) + a.drop_first() =~= cur + a);
    }
}

/// A first line without a newline, ended by one, is the first of the
/// lines (less a trailing carriage return); the rest are the lines of
/// what follows.
pub proof fn lemma_lines_first(a: Seq<char>, b: Seq<char>)
    requires
        !a.contains('\n'),
    ensures
        lines(a + seq!['\n'] + b) == seq![strip_cr(a)] + lines(b),
{
    let nb = seq!['\n'] + b;
    assert(a + seq!['\n'] + b =~= a + nb);
    lemma_lines_from_append(Seq::empty(), a, nb);
    assert(Seq::<char>::empty() + a =~= a);
    assert(nb[0] == '\n');
    assert(nb.drop_first() =~= b);
}

/// A part of a text without `c` has no `c` either.
pub proof fn lemma_no_char_subrange(s: Seq<char>, c: char, i: int, j: int)
    requires
        !s.contains(c),
        0 <= i <= j <= s.len(),
    ensures
        !s.subrange(i, j).contains(c),
{
    if s.subrange(i, j).contains(c) {
        let k = choose|k: int| 0 <= k < s.subrange(i, j).len() && s.subrange(i, j)[k] == c;
        assert(s[i + k] == c);
    }
}

/// Two texts without `c` joined have no `c`.
pub proof fn lemma_no_char_concat(a: Seq<char>, b: Seq<char>, c: char)
    requires
        !a.contains(c),
        !b.contains(c),
    ensures
        !(a + b).contains(c),
{
    if (a + b).contains(c) {
        let k = choose|k: int| 0 <= k < (a + b).len() && (a + b)[k] == c;
        if k < a.len() {
            assert(a[k] == c);
        } else {
            assert(b[k - a.len()] == c);
        }
    }
}

/// A prefix fixes the characters it covers.
pub proof fn lemma_prefix_char(p: Seq<char>, s: Seq<char>, i: int)
    requires
        p.is_prefix_of(s),
        0 <= i < p.len(),
    ensures
        s[i] == p[i],
{
    assert(p[i] == s.subrange(0, p.len() as int)[i]);
}

/// A character of a text that holds no `c` is not `c`.
pub proof fn lemma_no_char_at(s: Seq<char>, c: char, i: int)
    requires
        !s.contains(c),
        0 <= i < s.len(),
    ensures
        s[i] != c,
{
    if s[i] == c {
        assert(s.contains(c));
    }
}

proof fn lemma_lines_from_no_nl(cur: Seq<char>, rest: Seq<char>)
    requires
        !cur.contains('\n'),
    ensures
        forall|i: int| 0 <= i < lines_from(cur, rest).len() ==> !(#[trigger] lines_from(cur, rest)[i]).contains('\n'),
    decreases rest.len(),
{
    let r = lines_from(cur, rest);
    if rest.len() == 0 {
        if cur.len() == 0 {
            assert(r =~= Seq::<Seq<char>>::empty());
        } else {
            assert(r =~= seq![cur]);
        }
    } else if rest[0] == '\n' {
        lemma_lines_from_no_nl(Seq::empty(), rest.drop_first());
        let sc = strip_cr(cur);
        if cur.len() > 0 && cur.last() == '\r' {
            lemma_no_char_subrange(cur, '\n', 0, cur.len() - 1);
            assert(cur.drop_last() =~= cur.subrange(0, cur.len() - 1));
        }
        assert(!sc.contains('\n'));
        let tl = lines_from(Seq::empty(), rest.drop_first());
        assert(r == seq![sc] + tl);
        assert forall|i: int| 0 <= i < r.len() implies !(#[trigger] r[i]).contains('\n') by {
            if i > 0 {
                assert(r[i] == tl[i - 1]);
            } else {
                assert(r[i] == sc);
            }
        }
    } else {
        lemma_no_char_concat(cur, seq![rest[0]], '\n');
        assert(cur + seq![rest[0]] =~= cur.push(rest[0]));
        assert(r == lines_from(cur.push(rest[0]), rest.drop_first()));
        lemma_lines_from_no_nl(cur.push(rest[0]), rest.drop_first());
    }
}

/// No line holds a newline.
pub proof fn lemma_lines_no_nl(s: Seq<char>)
    ensures
        forall|i: int| 0 <= i < lines(s).len() ==> !(#[trigger] lines(s)[i]).contains('\n'),
{
    lemma_lines_from_no_nl(Seq::empty(), s);
}

/// Joining lines, seen from the front: the first line, a newline, and the
/// rest joined.
pub proof fn lemma_join_nl_front(h: Seq<char>, rest: Seq<Seq<char>>)
    requires
        rest.len() > 0,
    ensures
        join_nl(seq![h] + rest) == h + seq!['\n'] + join_nl(rest),
    decreases rest.len(),
{
    let all = seq![h] + rest;
    assert(all.len() >= 2);
    assert(join_nl(all) == join_nl(all.drop_last()) + seq!['\n'] + all.last());
    if rest.len() == 1 {
        assert(all.drop_last() =~= seq![h]);
        assert(join_nl(seq![h]) == h);
        assert(all.last() == rest[0]);
        assert(join_nl(rest) == rest[0]);
    } else {
        assert(all.drop_last() =~= seq![h] + rest.drop_last());
        assert(all.last() == rest.last());
        lemma_join_nl_front(h, rest.drop_last());
        assert(join_nl(rest) == join_nl(rest.drop_last()) + seq!['\n'] + rest.last());
        assert(join_nl(all) =~= h + seq!['\n'] + join_nl(rest));
    }
}

/// The lines of joined lines that hold no newline: each but the last loses
/// a trailing carriage return, and an empty last line is dropped.
pub open spec fn joined_lines(ls: Seq<Seq<char>>) -> Seq<Seq<char>>
    decreases ls.len(),
{
    if ls.len() <= 1 {
        if ls.len() == 0 || ls[0].len() == 0 {
            Seq::empty()
        } else {
            seq![ls[0]]
        }
    } else {
        seq![strip_cr(ls[0])] + joined_lines(ls.drop_first())
    }
}

/// What splitting joined lines gives back.
pub proof fn lemma_lines_join(ls: Seq<Seq<char>>)
    requires
        ls.len() > 0,
        forall|i: int| 0 <= i < ls.len() ==> !(#[trigger] ls[i]).contains('\n'),
    ensures
        lines(join_nl(ls)) == joined_lines(ls),
    decreases ls.len(),
{
    if ls.len() == 1 {
        lemma_lines_from_append(Seq::empty(), ls[0], Seq::empty());
        assert(ls[0] + Seq::<char>::empty() =~= ls[0]);
        assert(Seq::<char>::empty() + ls[0] =~= ls[0]);
    } else {
        let rest = ls.drop_first();
        assert(ls =~= seq![ls[0]] + rest);
        lemma_join_nl_front(ls[0], rest);
        assert(!ls[0].contains('\n'));
        lemma_lines_first(ls[0], join_nl(rest));
        assert forall|i: int| 0 <= i < rest.len() implies !(#[trigger] rest[i]).contains('\n') by {
            assert(rest[i] == ls[i + 1]);
        }
        lemma_lines_join(rest);
    }
}

/// A text contains what occurs in it.
pub proof fn lemma_contains_at(s: Seq<char>, p: Seq<char>, n: int)
    requires
        0 <= n <= s.len(),
        p.is_prefix_of(s.skip(n)),
    ensures
        contains_sub(s, p),
    decreases n,
{
    if !p.is_prefix_of(s) {
        if n == 0 {
            assert(s.skip(0) =~= s);
        } else {
            assert(s.drop_first().skip(n - 1) =~= s.skip(n));
            lemma_contains_at(s.drop_first(), p, n - 1);
        }
    }
}

/// Where a pattern first occurs, when it occurs at `n` and nowhere before.
pub proof fn lemma_find_sub_at(s: Seq<char>, p: Seq<char>, n: int)
    requires
        0 <= n <= s.len(),
        forall|k: int| 0 <= k < n ==> !p.is_prefix_of(#[trigger] s.skip(k)),
        p.is_prefix_of(s.skip(n)),
    ensures
        find_sub(s, p) == Some(n),
{
    lemma_find_sub_skip(s, p, n);
}

/// Joined lines, none holding a newline or starting with `---`, followed
/// by a newline, hold no `"\n---"` before that newline.
pub proof fn lemma_join_no_marker(ls: Seq<Seq<char>>, t: Seq<char>)
    requires
        ls.len() > 0,
        forall|i: int| 0 <= i < ls.len() ==> !(#[trigger] ls[i]).contains('\n') && !"---"@.is_prefix_of(ls[i]),
        t.len() > 0,
        t[0] == '\n',
    ensures
        forall|k: int| 0 <= k < join_nl(ls).len() ==> !"\n---"@.is_prefix_of(#[trigger] (join_nl(ls) + t).skip(k)),
    decreases ls.len(),
{
    reveal_strlit("\n---");
    reveal_strlit("---");
    let pat = "\n---"@;
    let h = ls[0];
    let j = join_nl(ls);
    assert(!h.contains('\n') && !"---"@.is_prefix_of(h));
    if ls.len() == 1 {
        assert(j == h);
        assert forall|k: int| 0 <= k < j.len() implies !pat.is_prefix_of(#[trigger] (j + t).skip(k)) by {
            assert((j + t).skip(k)[0] == h[k]);
            lemma_no_char_at(h, '\n', k);
            if pat.is_prefix_of((j + t).skip(k)) {
                lemma_prefix_char(pat, (j + t).skip(k), 0);
            }
        }
    } else {
        let rest = ls.drop_first();
        assert(ls =~= seq![h] + rest);
        lemma_join_nl_front(h, rest);
        let jr = join_nl(rest);
        assert forall|i: int| 0 <= i < rest.len() implies !(#[trigger] rest[i]).contains('\n') && !"---"@.is_prefix_of(
            rest[i],
        ) by {
            assert(rest[i] == ls[i + 1]);
        }
        lemma_join_no_marker(rest, t);
        let h1 = rest[0];
        assert(!"---"@.is_prefix_of(h1));
        let after = jr + t;
        assert(exists|x: Seq<char>| after =~= h1 + seq!['\n'] + x) by {
            if rest.len() == 1 {
                assert(jr == h1);
                assert(after =~= h1 + seq!['\n'] + t.drop_first());
            } else {
                assert(rest =~= seq![h1] + rest.drop_first());
                lemma_join_nl_front(h1, rest.drop_first());
                assert(after =~= h1 + seq!['\n'] + (join_nl(rest.drop_first()) + t));
            }
        }
        let x = choose|x: Seq<char>| after =~= h1 + seq!['\n'] + x;
        assert(j + t =~= h + seq!['\n'] + after);
        assert forall|k: int| 0 <= k < j.len() implies !pat.is_prefix_of(#[trigger] (j + t).skip(k)) by {
            let w = (j + t).skip(k);
            if k < h.len() {
                assert(w[0] == h[k]);
                lemma_no_char_at(h, '\n', k);
                if pat.is_prefix_of(w) {
                    lemma_prefix_char(pat, w, 0);
                }
            } else if k == h.len() {
                assert(w =~= seq!['\n'] + after);
                if pat.is_prefix_of(w) {
                    if h1.len() >= 3 {
                        assert forall|q: int| 0 <= q < 3 implies h1.subrange(0, 3)[q] == "---"@[q] by {
                            lemma_prefix_char(pat, w, q + 1);
                            assert(w[q + 1] == after[q]);
                            assert(after[q] == h1[q]);
                        }
                        assert(h1.subrange(0, 3) =~= "---"@);
                        assert("---"@.is_prefix_of(h1));
                    } else {
                        let q = h1.len() as int;
                        lemma_prefix_char(pat, w, q + 1);
                        assert(w[q + 1] == after[q]);
                        assert(after[q] == '\n');
                    }
                }
            } else {
                assert(w =~= after.skip(k - h.len() - 1));
            }
        }
    }
}

/// Removing leading whitespace only shortens.
pub proof fn lemma_trim_start_len(s: Seq<char>)
    ensures
        trim_start(s).len() <= s.len(),
        trim_start(s).len() == s.len() ==> trim_start(s) == s,
    decreases s.len(),
{
    if s.len() > 0 && is_ws(s[0]) {
        lemma_trim_start_len(s.drop_first());
    }
}

/// Removing trailing whitespace only shortens.
pub proof fn lemma_trim_end_len(s: Seq<char>)
    ensures
        trim_end(s).len() <= s.len(),
        s.len() > 0 && is_ws(s.last()) ==> trim_end(s).len() < s.len(),
    decreases s.len(),
{
    if s.len() > 0 && is_ws(s.last()) {
        lemma_trim_end_len(s.drop_last());
    }
}

/// Trailing whitespace stops at a character that is not whitespace: that
/// character and all before it stay.
pub proof fn lemma_trim_end_keeps(s: Seq<char>, i: int)
    requires
        0 <= i < s.len(),
        !is_ws(s[i]),
    ensures
        trim_end(s).len() > i,
        forall|k: int| 0 <= k <= i ==> #[trigger] trim_end(s)[k] == s[k],
    decreases s.len(),
{
    if is_ws(s.last()) {
        assert(i < s.len() - 1);
        lemma_trim_end_keeps(s.drop_last(), i);
        assert forall|k: int| 0 <= k <= i implies #[trigger] trim_end(s)[k] == s[k] by {
            assert(s.drop_last()[k] == s[k]);
        }
    }
}

/// Text that trimming leaves as it is does not start with whitespace.
pub proof fn lemma_trimmed_first(s: Seq<char>)
    requires
        trim(s) == s,
        s.len() > 0,
    ensures
        !is_ws(s[0]),
{
    lemma_trim_start_len(s);
    lemma_trim_end_len(trim_start(s));
    if is_ws(s[0]) {
        lemma_trim_start_len(s.drop_first());
    }
}

/// Text that trimming leaves as it is does not end in whitespace.
pub proof fn lemma_trimmed_last(s: Seq<char>)
    requires
        trim(s) == s,
        s.len() > 0,
    ensures
        !is_ws(s.last()),
{
    lemma_trim_start_len(s);
    lemma_trim_end_len(trim_start(s));
    lemma_trim_end_len(s);
}

proof fn lemma_trim_start_push_ws(s: Seq<char>, c: char)
    requires
        is_ws(c),
    ensures
        trim_start(s.push(c)) == (if trim_start(s).len() == 0 {
            Seq::<char>::empty()
        } else {
            trim_start(s).push(c)
        }),
    decreases s.len(),
{
    let sc = s.push(c);
    if s.len() == 0 {
        assert(sc[0] == c);
        assert(sc.drop_first() =~= Seq::<char>::empty());
        assert(trim_start(sc) == trim_start(sc.drop_first()));
        assert(trim_start(Seq::<char>::empty()) == Seq::<char>::empty());
        assert(trim_start(s) == Seq::<char>::empty());
    } else {
        assert(sc[0] == s[0]);
        if is_ws(s[0]) {
            assert(sc.drop_first() =~= s.drop_first().push(c));
            assert(trim_start(sc) == trim_start(sc.drop_first()));
            assert(trim_start(s) == trim_start(s.drop_first()));
            lemma_trim_start_push_ws(s.drop_first(), c);
        } else {
            assert(trim_start(sc) == sc);
            assert(trim_start(s) == s);
        }
    }
}

/// Trimming does not see a line's trailing carriage return.
pub proof fn lemma_trim_strip_cr(l: Seq<char>)
    ensures
        trim(strip_cr(l)) == trim(l),
{
    if l.len() > 0 && l.last() == '\r' {
        let x = l.drop_last();
        assert(l =~= x.push('\r'));
        assert(is_ws('\r'));
        lemma_trim_start_push_ws(x, '\r');
        if trim_start(x).len() > 0 {
            assert(trim_start(x).push('\r').drop_last() =~= trim_start(x));
        }
    }
}

proof fn lemma_trim_start_skip(s: Seq<char>, a: int)
    requires
        0 <= a <= s.len(),
        forall|k: int| 0 <= k < a ==> is_ws(#[trigger] s[k]),
    ensures
        trim_start(s) == trim_start(s.skip(a)),
    decreases a,
{
    if a > 0 {
        assert(s.skip(1).skip(a - 1) =~= s.skip(a));
        assert(s.drop_first() =~= s.skip(1));
        lemma_trim_start_skip(s.drop_first(), a - 1);
    } else {
        assert(s.skip(0) =~= s);
    }
}

proof fn lemma_trim_end_take(s: Seq<char>, b: int)
    requires
        0 <= b <= s.len(),
        forall|k: int| b <= k < s.len() ==> is_ws(#[trigger] s[k]),
    ensures
        trim_end(s) == trim_end(s.take(b)),
    decreases s.len() - b,
{
    if b < s.len() {
        assert(s.drop_last().take(b) =~= s.take(b));
        lemma_trim_end_take(s.drop_last(), b);
    } else {
        assert(s.take(b) =~= s);
    }
}

/// `trim` on a character slice.
pub fn trim_chars(s: &[char]) -> (r: Vec<char>)
    ensures
        r@ == trim(s@),
{
    let mut a: usize = 0;
    while a < s.len() && char_is_ws(s[a])
        invariant
            a <= s@.len(),
            forall|k: int| 0 <= k < a ==> is_ws(#[trigger] s@[k]),
        decreases s@.len() - a,
    {
        a = a + 1;
    }
    proof {
        lemma_trim_start_skip(s@, a as int);
    }
    let ghost t = s@.skip(a as int);
    let mut b: usize = s.len();
    while b > a && char_is_ws(s[b - 1])
        invariant
            a <= b <= s@.len(),
            t == s@.skip(a as int),
            forall|k: int| (b - a) <= k < t.len() ==> is_ws(#[trigger] t[k]),
        decreases b,
    {
        b = b - 1;
    }
    proof {
        lemma_trim_end_take(t, b - a);
    }
    let mut r: Vec<char> = Vec::new();
    let mut i: usize = a;
    while i < b
        invariant
            a <= i <= b <= s@.len(),
            r@ == s@.subrange(a as int, i as int),
        decreases b - i,
    {
        r.push(s[i]);
        assert(s@.subrange(a as int, i as int).push(s@[i as int]) =~= s@.subrange(a as int, i + 1));
        i = i + 1;
    }
    assert(t.take(b - a) =~= s@.subrange(a as int, b as int));
    r
}

/// The pieces of `ls` joined with `'\n'`.
pub fn join_lines(ls: &[Vec<char>]) -> (r: Vec<char>)
    ensures
        r@ == join_nl(ls@.map_values(|l: Vec<char>| l@)),
{
    let ghost m = ls@.map_values(|l: Vec<char>| l@);
    let mut r: Vec<char> = Vec::new();
    let mut i: usize = 0;
    while i < ls.len()
        invariant
            i <= ls@.len(),
            m == ls@.map_values(|l: Vec<char>| l@),
            r@ == join_nl(m.take(i as int)),
        decreases ls@.len() - i,
    {
        assert(m.take(i + 1).drop_last() =~= m.take(i as int));
        if i > 0 {
            r.push('\n');
        }
        let line = &ls[i];
        let mut j: usize = 0;
        let ghost base = r@;
        while j < line.len()
            invariant
                j <= line@.len(),
                r@ == base + line@.take(j as int),
            decreases line@.len() - j,
        {
            r.push(line[j]);
            assert(base + line@.take(j as int).push(line@[j as int]) =~= base + line@.take(j + 1));
            assert(r@ =~= base + line@.take(j + 1));
            j = j + 1;
        }
        assert(line@.take(line@.len() as int) =~= line@);
        if i == 0 {
            assert(r@ =~= join_nl(m.take(1)));
        } else {
            assert(r@ =~= join_nl(m.take(i as int)) + seq!['\n'] + m[i as int]);
        }
        i = i + 1;
    }
    assert(m.take(ls@.len() as int) =~= m);
    r
}

/// Whether `p` is a prefix of `s` (`starts_with`).
pub fn has_prefix(s: &[char], p: &[char]) -> (b: bool)
    ensures
        b == p@.is_prefix_of(s@),
{
    if p.len() > s.len() {
        return false;
    }
    let mut i: usize = 0;
    while i < p.len()
        invariant
            i <= p@.len() <= s@.len(),
            forall|k: int| 0 <= k < i ==> p@[k] == s@[k],
        decreases p@.len() - i,
    {
        if p[i] != s[i] {
            return false;
        }
        i = i + 1;
    }
    true
}

/// The characters of `s` from index `a` on.
pub fn skip_chars(s: &[char], a: usize) -> (r: Vec<char>)
    requires
        a <= s@.len(),
    ensures
        r@ == s@.skip(a as int),
{
    let mut r: Vec<char> = Vec::new();
    let mut i: usize = a;
    while i < s.len()
        invariant
            a <= i <= s@.len(),
            r@ == s@.subrange(a as int, i as int),
        decreases s@.len() - i,
    {
        r.push(s[i]);
        assert(s@.subrange(a as int, i as int).push(s@[i as int]) =~= s@.subrange(a as int, i + 1));
        i = i + 1;
    }
    assert(s@.subrange(a as int, s@.len() as int) =~= s@.skip(a as int));
    r
}


/// The decimal digit for `d < 10`.
pub open spec fn digit_char(d: nat) -> char {
    ((d + 48) as u32) as char
}

/// The decimal representation of `n` without leading zeros, as `{}`
/// formats an unsigned integer.
pub open spec fn dec(n: nat) -> Seq<char>
    decreases n,
{
    if n < 10 {
        seq![digit_char(n)]
    } else {
        dec(n / 10).push(digit_char(n % 10))
    }
}

fn digit(d: u64) -> (c: char)
    requires
        d < 10,
    ensures
        c == digit_char(d as nat),
{
    if d == 0 { '0' } else if d == 1 { '1' } else if d == 2 { '2' } else if d == 3 { '3' }
    else if d == 4 { '4' } else if d == 5 { '5' } else if d == 6 { '6' } else if d == 7 { '7' }
    else if d == 8 { '8' } else { '9' }
}

/// `n` in decimal, as a vector of characters.
pub fn dec_chars(n: u64) -> (r: Vec<char>)
    ensures
        r@ == dec(n as nat),
    decreases n,
{
    if n < 10 {
        let mut v: Vec<char> = Vec::new();
        v.push(digit(n));
        assert(v@ =~= dec(n as nat));
        v
    } else {
        let mut v = dec_chars(n / 10);
        v.push(digit(n % 10));
        v
    }
}

/// Append `n` in decimal to `out`.
pub fn push_dec(out: &mut String, n: u64)
    ensures
        final(out)@ == old(out)@ + dec(n as nat),
{
    let ds = dec_chars(n);
    let mut i: usize = 0;
    let ghost base = out@;
    while i < ds.len()
        invariant
            i <= ds@.len(),
            ds@ == dec(n as nat),
            out@ == base + ds@.take(i as int),
        decreases ds@.len() - i,
    {
        push_char(out, ds[i]);
        assert(base + ds@.take(i as int).push(ds@[i as int]) =~= base + ds@.take(i + 1));
        i = i + 1;
    }
    assert(ds@.take(ds@.len() as int) =~= ds@);
}

/// Append the characters of `cs` to `out`.
pub fn push_chars(out: &mut String, cs: &[char])
    ensures
        final(out)@ == old(out)@ + cs@,
{
    let mut i: usize = 0;
    let ghost base = out@;
    while i < cs.len()
        invariant
            i <= cs@.len(),
            out@ == base + cs@.take(i as int),
        decreases cs@.len() - i,
    {
        push_char(out, cs[i]);
        assert(base + cs@.take(i as int).push(cs@[i as int]) =~= base + cs@.take(i + 1));
        i = i + 1;
    }
    assert(cs@.take(cs@.len() as int) =~= cs@);
}

/// Append the text `s` to `out`.
pub fn push_text(out: &mut String, s: &str)
    ensures
        final(out)@ == old(out)@ + s@,
{
    let cs = chars_of(s);
    push_chars(out, cs.as_slice());
}


/// `s` without its leading run of `c` (`trim_start_matches(c)`).
pub open spec fn strip_leading(s: Seq<char>, c: char) -> Seq<char>
    decreases s.len(),
{
    if s.len() > 0 && s[0] == c {
        strip_leading(s.drop_first(), c)
    } else {
        s
    }
}

/// The index of the first `c` in `s`, if any.
pub open spec fn find_char(s: Seq<char>, c: char) -> Option<int>
    decreases s.len(),
{
    if s.len() == 0 {
        None
    } else if s[0] == c {
        Some(0)
    } else {
        match find_char(s.drop_first(), c) {
            Some(i) => Some(i + 1),
            None => None,
        }
    }
}

/// `s` split around its first `c` (`split_once(c)`).
pub open spec fn split_once(s: Seq<char>, c: char) -> Option<(Seq<char>, Seq<char>)> {
    match find_char(s, c) {
        Some(i) => Some((s.take(i), s.skip(i + 1))),
        None => None,
    }
}

/// The index of the first occurrence of `p` in `s`, if any (`find`).
pub open spec fn find_sub(s: Seq<char>, p: Seq<char>) -> Option<int>
    decreases s.len(),
{
    if p.is_prefix_of(s) {
        Some(0)
    } else if s.len() == 0 {
        None
    } else {
        match find_sub(s.drop_first(), p) {
            Some(i) => Some(i + 1),
            None => None,
        }
    }
}

/// Whether `p` occurs in `s` (`contains`).
pub open spec fn contains_sub(s: Seq<char>, p: Seq<char>) -> bool {
    find_sub(s, p) is Some
}

proof fn lemma_strip_leading_skip(s: Seq<char>, c: char, a: int)
    requires
        0 <= a <= s.len(),
        forall|k: int| 0 <= k < a ==> #[trigger] s[k] == c,
    ensures
        strip_leading(s, c) == strip_leading(s.skip(a), c),
    decreases a,
{
    if a > 0 {
        assert(s.drop_first().skip(a - 1) =~= s.skip(a));
        lemma_strip_leading_skip(s.drop_first(), c, a - 1);
    } else {
        assert(s.skip(0) =~= s);
    }
}

/// `strip_leading` on a character slice.
pub fn strip_leading_chars(s: &[char], c: char) -> (r: Vec<char>)
    ensures
        r@ == strip_leading(s@, c),
{
    let mut a: usize = 0;
    while a < s.len() && s[a] == c
        invariant
            a <= s@.len(),
            forall|k: int| 0 <= k < a ==> #[trigger] s@[k] == c,
        decreases s@.len() - a,
    {
        a = a + 1;
    }
    proof {
        lemma_strip_leading_skip(s@, c, a as int);
    }
    skip_chars(s, a)
}

proof fn lemma_find_char_skip(s: Seq<char>, c: char, i: int)
    requires
        0 <= i <= s.len(),
        forall|k: int| 0 <= k < i ==> #[trigger] s[k] != c,
    ensures
        find_char(s, c) == match find_char(s.skip(i), c) {
            Some(j) => Some(j + i),
            None => None::<int>,
        },
    decreases i,
{
    if i > 0 {
        assert(s.drop_first().skip(i - 1) =~= s.skip(i));
        lemma_find_char_skip(s.drop_first(), c, i - 1);
    } else {
        assert(s.skip(0) =~= s);
    }
}

/// The index of the first `c` in `s`, if any.
pub fn find_char_idx(s: &[char], c: char) -> (r: Option<usize>)
    ensures
        r matches Some(i) ==> find_char(s@, c) == Some(i as int),
        r is None ==> find_char(s@, c) is None,
{
    let mut i: usize = 0;
    while i < s.len()
        invariant
            i <= s@.len(),
            forall|k: int| 0 <= k < i ==> #[trigger] s@[k] != c,
        decreases s@.len() - i,
    {
        if s[i] == c {
            proof {
                lemma_find_char_skip(s@, c, i as int);
            }
            return Some(i);
        }
        i = i + 1;
    }
    proof {
        lemma_find_char_skip(s@, c, i as int);
    }
    None
}

proof fn lemma_find_sub_skip(s: Seq<char>, p: Seq<char>, i: int)
    requires
        0 <= i <= s.len(),
        forall|k: int| 0 <= k < i ==> !p.is_prefix_of(#[trigger] s.skip(k)),
    ensures
        find_sub(s, p) == match find_sub(s.skip(i), p) {
            Some(j) => Some(j + i),
            None => None::<int>,
        },
    decreases i,
{
    if i > 0 {
        assert(s.drop_first().skip(i - 1) =~= s.skip(i));
        assert(s.skip(0) =~= s);
        assert forall|k: int| 0 <= k < i - 1 implies !p.is_prefix_of(
            #[trigger] s.drop_first().skip(k),
        ) by {
            assert(s.drop_first().skip(k) =~= s.skip(k + 1));
        }
        lemma_find_sub_skip(s.drop_first(), p, i - 1);
    } else {
        assert(s.skip(0) =~= s);
    }
}

/// Whether `p` occurs in `s` at index `i`.
pub fn occurs_at(s: &[char], p: &[char], i: usize) -> (b: bool)
    requires
        i <= s@.len(),
    ensures
        b == p@.is_prefix_of(s@.skip(i as int)),
{
    if p.len() > s.len() - i {
        return false;
    }
    let mut j: usize = 0;
    while j < p.len()
        invariant
            i <= s@.len() <= usize::MAX,
            j <= p@.len() <= s@.len() - i,
            forall|k: int| 0 <= k < j ==> p@[k] == s@[i + k],
        decreases p@.len() - j,
    {
        if p[j] != s[i + j] {
            return false;
        }
        j = j + 1;
    }
    true
}

/// The index of the first occurrence of `p` in `s`, if any.
pub fn find_sub_idx(s: &[char], p: &[char]) -> (r: Option<usize>)
    ensures
        r matches Some(i) ==> find_sub(s@, p@) == Some(i as int),
        r is None ==> find_sub(s@, p@) is None,
{
    let mut i: usize = 0;
    while i < s.len()
        invariant
            i <= s@.len(),
            forall|k: int| 0 <= k < i ==> !p@.is_prefix_of(#[trigger] s@.skip(k)),
        decreases s@.len() - i,
    {
        if occurs_at(s, p, i) {
            proof {
                lemma_find_sub_skip(s@, p@, i as int);
            }
            return Some(i);
        }
        i = i + 1;
    }
    proof {
        lemma_find_sub_skip(s@, p@, i as int);
    }
    if occurs_at(s, p, i) {
        Some(i)
    } else {
        assert(s@.skip(i as int).len() == 0);
        None
    }
}

/// The characters of `s` from index `a` up to (not including) `b`.
pub fn slice_chars(s: &[char], a: usize, b: usize) -> (r: Vec<char>)
    requires
        a <= b <= s@.len(),
    ensures
        r@ == s@.subrange(a as int, b as int),
{
    let mut r: Vec<char> = Vec::new();
    let mut i: usize = a;
    while i < b
        invariant
            a <= i <= b <= s@.len(),
            r@ == s@.subrange(a as int, i as int),
        decreases b - i,
    {
        r.push(s[i]);
        assert(s@.subrange(a as int, i as int).push(s@[i as int]) =~= s@.subrange(a as int, i + 1));
        i = i + 1;
    }
    r
}

/// Whether the two character sequences are equal.
pub fn chars_eq(a: &[char], b: &[char]) -> (r: bool)
    ensures
        r == (a@ == b@),
{
    if a.len() != b.len() {
        return false;
    }
    let mut i: usize = 0;
    while i < a.len()
        invariant
            i <= a@.len() == b@.len(),
            forall|k: int| 0 <= k < i ==> a@[k] == b@[k],
        decreases a@.len() - i,
    {
        if a[i] != b[i] {
            return false;
        }
        i = i + 1;
    }
    assert(a@ =~= b@);
    true
}


/// What `find_char` returns: the first index holding `c`.
pub proof fn lemma_find_char(s: Seq<char>, c: char)
    ensures
        find_char(s, c) matches Some(i) ==> 0 <= i < s.len() && s[i] == c && forall|k: int|
            0 <= k < i ==> s[k] != c,
        find_char(s, c) is None ==> forall|k: int| 0 <= k < s.len() ==> s[k] != c,
    decreases s.len(),
{
    if s.len() > 0 && s[0] != c {
        lemma_find_char(s.drop_first(), c);
        assert forall|k: int| 0 < k < s.len() implies s[k] == s.drop_first()[k - 1] by {}
    }
}

/// What `find_sub` returns: an index at which `p` occurs, within bounds.
pub proof fn lemma_find_sub_bound(s: Seq<char>, p: Seq<char>)
    ensures
        find_sub(s, p) matches Some(i) ==> 0 <= i && i + p.len() <= s.len() && p.is_prefix_of(
            s.skip(i),
        ),
    decreases s.len(),
{
    if !p.is_prefix_of(s) && s.len() > 0 {
        lemma_find_sub_bound(s.drop_first(), p);
        if let Some(i) = find_sub(s.drop_first(), p) {
            assert(s.drop_first().skip(i) =~= s.skip(i + 1));
        }
    } else if p.is_prefix_of(s) {
        assert(s.skip(0) =~= s);
    }
}


/// Whether `c` is an ASCII decimal digit.
pub open spec fn is_digit(c: char) -> bool {
    '0' <= c <= '9'
}

/// The value of a sequence of decimal digits.
pub open spec fn digits_value(d: Seq<char>) -> nat
    decreases d.len(),
{
    if d.len() == 0 {
        0
    } else {
        digits_value(d.drop_last()) * 10 + ((d.last() as u32) - 48) as nat
    }
}

/// `s` without one leading `'+'`.
pub open spec fn unsigned_digits(s: Seq<char>) -> Seq<char> {
    if s.len() > 0 && s[0] == '+' {
        s.drop_first()
    } else {
        s
    }
}

/// What `str::parse::<u64>` gives: one optional leading `'+'`, then at
/// least one decimal digit and nothing else, with a value that fits in
/// `u64`.
pub open spec fn parse_u64(s: Seq<char>) -> Option<u64> {
    let d = unsigned_digits(s);
    if d.len() > 0 && (forall|i: int| 0 <= i < d.len() ==> is_digit(#[trigger] d[i]))
        && digits_value(d) <= u64::MAX {
        Some(digits_value(d) as u64)
    } else {
        None
    }
}

proof fn lemma_digits_value_mono(d: Seq<char>, i: int)
    requires
        0 <= i <= d.len(),
        forall|k: int| 0 <= k < d.len() ==> is_digit(#[trigger] d[k]),
    ensures
        digits_value(d.take(i)) <= digits_value(d),
    decreases d.len() - i,
{
    if i < d.len() {
        assert(d.drop_last().take(i) =~= d.take(i));
        lemma_digits_value_mono(d.drop_last(), i);
    } else {
        assert(d.take(i) =~= d);
    }
}

/// `str::parse::<u64>`, as an `Option`.
pub fn parse_u64_str(s: &str) -> (r: Option<u64>)
    ensures
        r == parse_u64(s@),
{
    let cs = chars_of(s);
    let start: usize = if cs.len() > 0 && cs[0] == '+' { 1 } else { 0 };
    let ghost d = unsigned_digits(s@);
    assert(d =~= cs@.skip(start as int));
    if cs.len() <= start {
        return None;
    }
    let mut acc: u128 = 0;
    let mut i: usize = start;
    while i < cs.len()
        invariant
            start <= i <= cs@.len(),
            cs@ == s@,
            d == unsigned_digits(s@),
            d == cs@.skip(start as int),
            forall|k: int| 0 <= k < i - start ==> is_digit(#[trigger] d[k]),
            acc == digits_value(d.take(i - start)),
            acc <= u64::MAX,
        decreases cs@.len() - i,
    {
        let c = cs[i];
        assert(d[i - start] == c);
        if !('0' <= c && c <= '9') {
            assert(!is_digit(d[i - start]));
            assert(!(forall|k: int| 0 <= k < d.len() ==> is_digit(#[trigger] d[k])));
            return None;
        }
        let dv = (c as u32 - 48) as u128;
        assert(d.take(i - start + 1).drop_last() =~= d.take(i - start));
        acc = acc * 10 + dv;
        if acc > 0xffff_ffff_ffff_ffff {
            proof {
                if forall|k: int| 0 <= k < d.len() ==> is_digit(#[trigger] d[k]) {
                    lemma_digits_value_mono(d, i - start + 1);
                }
            }
            return None;
        }
        i = i + 1;
    }
    assert(d.take(i - start) =~= d);
    Some(acc as u64)
}

/// ASCII lowercase of one character: `A`–`Z` become `a`–`z`.
pub open spec fn ascii_lower_char(c: char) -> char {
    if 'A' <= c && c <= 'Z' {
        ((c as u32) + 32) as char
    } else {
        c
    }
}

/// `to_ascii_lowercase` on a character.
pub fn lower_ascii_char(c: char) -> (r: char)
    ensures
        r == ascii_lower_char(c),
{
    if 'A' <= c && c <= 'Z' {
        let b = c as u8;
        (b + 32) as char
    } else {
        c
    }
}


/// ASCII lowercase of a text (`to_ascii_lowercase`).
pub open spec fn ascii_lower(s: Seq<char>) -> Seq<char> {
    s.map_values(|c: char| ascii_lower_char(c))
}

/// `to_ascii_lowercase` on a text.
pub fn to_ascii_lower(s: &str) -> (r: String)
    ensures
        r@ == ascii_lower(s@),
{
    let cs = chars_of(s);
    let mut out = String::new();
    let mut i: usize = 0;
    while i < cs.len()
        invariant
            i <= cs@.len(),
            cs@ == s@,
            out@ == ascii_lower(s@.take(i as int)),
        decreases cs@.len() - i,
    {
        push_char(&mut out, lower_ascii_char(cs[i]));
        assert(ascii_lower(s@.take(i as int)).push(ascii_lower_char(s@[i as int])) =~= ascii_lower(
            s@.take(i + 1),
        ));
        i = i + 1;
    }
    assert(s@.take(s@.len() as int) =~= s@);
    out
}

/// What `str::to_lowercase` gives for a text: the Unicode lowercase
/// mapping, character by character, with its context rules.
pub uninterp spec fn lowercase(s: Seq<char>) -> Seq<char>;

/// Wrapper for `str::to_lowercase`; its result is named `lowercase`.
#[verifier::external_body]
pub(crate) fn to_lower(s: &str) -> (r: String)
    ensures
        r@ == lowercase(s@),
{
    s.to_lowercase()
}

/// Whether two texts are equal.
pub fn same_text(a: &str, b: &str) -> (r: bool)
    ensures
        r == (a@ == b@),
{
    let x = String::from_str(a);
    let y = String::from_str(b);
    x == y
}

/// Whether `p` occurs in `s`.
pub fn contains_text(s: &str, p: &str) -> (r: bool)
    ensures
        r == contains_sub(s@, p@),
{
    let sc = chars_of(s);
    let pc = chars_of(p);
    find_sub_idx(sc.as_slice(), pc.as_slice()).is_some()
}


/// The text that `{:?}` prints for a list of strings: each string quoted
/// and escaped as `str`'s `Debug` escapes it, comma-separated, in square
/// brackets.
pub uninterp spec fn debug_strings(items: Seq<Seq<char>>) -> Seq<char>;

/// Wrapper for `format!("{:?}", items)` on a list of strings; its result
/// is named `debug_strings`.
#[verifier::external_body]
pub(crate) fn strings_debug(items: &Vec<String>) -> (r: String)
    ensures
        r@ == debug_strings(items@.map_values(|s: String| s@)),
{
    format!("{:?}", items)
}

} // verus!
