use vstd::prelude::*;

verus! {

/// `String::push`: appends one character to the end of the string.
#[verifier::external_body]
pub(crate) fn push_char(s: &mut String, c: char)
    ensures
        final(s)@ == old(s)@.push(c),
{
    s.push(c);
}

/// The characters of `s`, in order.
pub fn chars_of(s: &str) -> (v: Vec<char>)
    ensures
        v@ == s@,
{
    let mut v: Vec<char> = Vec::new();
    for c in it: s.chars()
        invariant
            v@ == it.seq().take(it.index() as int),
            it.seq() == s@,
    {
        v.push(c);
    }
    v
}

/// The string made of the characters of `cs`, in order.
pub fn string_of(cs: &Vec<char>) -> (s: String)
    ensures
        s@ == cs@,
{
    let mut s = String::new();
    let mut i: usize = 0;
    while i < cs.len()
        invariant
            i <= cs.len(),
            s@ == cs@.take(i as int),
        decreases cs.len() - i,
    {
        push_char(&mut s, cs[i]);
        assert(cs@.take(i as int).push(cs@[i as int]) =~= cs@.take(i + 1));
        i += 1;
    }
    assert(cs@.take(cs.len() as int) =~= cs@);
    s
}


/// Unicode `White_Space`: the characters for which `char::is_whitespace` holds.
pub open spec fn is_white_space(c: char) -> bool {
    ||| ('\u{9}' <= c && c <= '\u{d}')
    ||| c == ' '
    ||| c == '\u{85}'
    ||| c == '\u{a0}'
    ||| c == '\u{1680}'
    ||| ('\u{2000}' <= c && c <= '\u{200a}')
    ||| c == '\u{2028}'
    ||| c == '\u{2029}'
    ||| c == '\u{202f}'
    ||| c == '\u{205f}'
    ||| c == '\u{3000}'
}

/// `s` without its leading white space.
pub open spec fn trim_start(s: Seq<char>) -> Seq<char>
    decreases s.len(),
{
    if s.len() > 0 && is_white_space(s[0]) {
        trim_start(s.drop_first())
    } else {
        s
    }
}

/// `s` without its trailing white space.
pub open spec fn trim_end(s: Seq<char>) -> Seq<char>
    decreases s.len(),
{
    if s.len() > 0 && is_white_space(s.last()) {
        trim_end(s.drop_last())
    } else {
        s
    }
}

/// `s` without white space at either end, as `str::trim` gives it.
pub open spec fn trim(s: Seq<char>) -> Seq<char> {
    trim_end(trim_start(s))
}

pub fn is_white_space_char(c: char) -> (b: bool)
    ensures
        b == is_white_space(c),
{
    ('\u{9}' <= c && c <= '\u{d}') || c == ' ' || c == '\u{85}' || c == '\u{a0}' || c == '\u{1680}'
        || ('\u{2000}' <= c && c <= '\u{200a}') || c == '\u{2028}' || c == '\u{2029}'
        || c == '\u{202f}' || c == '\u{205f}' || c == '\u{3000}'
}

/// The characters `v[lo..hi]`.
pub fn copy_range(v: &Vec<char>, lo: usize, hi: usize) -> (r: Vec<char>)
    requires
        lo <= hi <= v.len(),
    ensures
        r@ == v@.subrange(lo as int, hi as int),
{
    let mut r: Vec<char> = Vec::new();
    let mut i: usize = lo;
    while i < hi
        invariant
            lo <= i <= hi <= v.len(),
            r@ == v@.subrange(lo as int, i as int),
        decreases hi - i,
    {
        r.push(v[i]);
        assert(v@.subrange(lo as int, i as int).push(v@[i as int]) =~= v@.subrange(lo as int, i + 1));
        i += 1;
    }
    r
}

/// `v` without white space at either end.
pub fn trim_chars(v: &Vec<char>) -> (r: Vec<char>)
    ensures
        r@ == trim(v@),
{
    let n = v.len();
    let mut a: usize = 0;
    assert(v@.skip(0) =~= v@);
    while a < n && is_white_space_char(v[a])
        invariant
            a <= n == v.len(),
            trim_start(v@) == trim_start(v@.skip(a as int)),
        decreases n - a,
    {
        assert(v@.skip(a as int).drop_first() =~= v@.skip(a + 1));
        a += 1;
    }
    assert(trim_start(v@.skip(a as int)) == v@.skip(a as int));
    let ghost started = v@.skip(a as int);
    let mut b: usize = n;
    while b > a && is_white_space_char(v[b - 1])
        invariant
            a <= b <= n == v.len(),
            started == v@.skip(a as int),
            trim_end(started) == trim_end(v@.subrange(a as int, b as int)),
        decreases b - a,
    {
        assert(v@.subrange(a as int, b as int).drop_last() =~= v@.subrange(a as int, b - 1));
        b -= 1;
    }
    assert(v@.subrange(a as int, n as int) =~= started);
    assert(trim_end(v@.subrange(a as int, b as int)) == v@.subrange(a as int, b as int));
    copy_range(v, a, b)
}

/// Whether `v` begins with the characters of `p`.
pub fn has_prefix(v: &Vec<char>, p: &Vec<char>) -> (b: bool)
    ensures
        b == p@.is_prefix_of(v@),
{
    if p.len() > v.len() {
        return false;
    }
    let mut i: usize = 0;
    while i < p.len()
        invariant
            i <= p.len() <= v.len(),
            forall|j: int| 0 <= j < i ==> p@[j] == v@[j],
        decreases p.len() - i,
    {
        if p[i] != v[i] {
            return false;
        }
        i += 1;
    }
    true
}


/// Position of the first line feed in `s`, or `s.len()` where there is none.
pub open spec fn newline_at(s: Seq<char>) -> int
    decreases s.len(),
{
    if s.len() == 0 {
        0
    } else if s[0] == '\n' {
        0
    } else {
        1 + newline_at(s.drop_first())
    }
}

pub proof fn lemma_newline_at_bounds(s: Seq<char>)
    ensures
        0 <= newline_at(s) <= s.len(),
        newline_at(s) < s.len() ==> s[newline_at(s)] == '\n',
        forall|k: int| 0 <= k < newline_at(s) ==> s[k] != '\n',
    decreases s.len(),
{
    if s.len() > 0 && s[0] != '\n' {
        lemma_newline_at_bounds(s.drop_first());
        assert forall|k: int| 0 <= k < newline_at(s) implies s[k] != '\n' by {
            if k > 0 {
                assert(s[k] == s.drop_first()[k - 1]);
            }
        }
    }
}

/// The first line feed of `s` stands at `k` (or there is none and `k` is the length).
pub proof fn lemma_newline_at_is(s: Seq<char>, k: int)
    requires
        0 <= k <= s.len(),
        k < s.len() ==> s[k] == '\n',
        forall|i: int| 0 <= i < k ==> s[i] != '\n',
    ensures
        newline_at(s) == k,
    decreases s.len(),
{
    if s.len() > 0 && k > 0 {
        assert(s[0] != '\n');
        assert forall|i: int| 0 <= i < k - 1 implies s.drop_first()[i] != '\n' by {
            assert(s.drop_first()[i] == s[i + 1]);
        }
        lemma_newline_at_is(s.drop_first(), k - 1);
    }
}

/// `l` without one trailing carriage return.
pub open spec fn strip_cr(l: Seq<char>) -> Seq<char> {
    if l.len() > 0 && l.last() == '\r' {
        l.drop_last()
    } else {
        l
    }
}

/// The lines of `s` as `str::lines` gives them: split at each line feed, a carriage
/// return just before a line feed dropped, and no empty line after a final line feed.
pub open spec fn lines(s: Seq<char>) -> Seq<Seq<char>>
    decreases s.len(),
{
    if s.len() == 0 {
        seq![]
    } else {
        let i = newline_at(s);
        proof {
            lemma_newline_at_bounds(s);
        }
        if i >= s.len() {
            seq![s]
        } else {
            seq![strip_cr(s.take(i))] + lines(s.skip(i + 1))
        }
    }
}

/// The lines of `ls` joined by line feeds, as `[..].join("\n")` gives it.
pub open spec fn join_lines(ls: Seq<Seq<char>>) -> Seq<char>
    decreases ls.len(),
{
    if ls.len() == 0 {
        seq![]
    } else if ls.len() == 1 {
        ls[0]
    } else {
        join_lines(ls.drop_last()) + seq!['\n'] + ls.last()
    }
}

/// The contents of each vector of `ls`.
pub open spec fn views(ls: Seq<Vec<char>>) -> Seq<Seq<char>> {
    ls.map_values(|l: Vec<char>| l@)
}

/// The lines of `v` (see [`lines`]).
pub fn lines_of(v: &Vec<char>) -> (ls: Vec<Vec<char>>)
    ensures
        views(ls@) == lines(v@),
{
    let n = v.len();
    let mut out: Vec<Vec<char>> = Vec::new();
    let mut start: usize = 0;
    assert(v@.skip(0) =~= v@);
    while start < n
        invariant
            start <= n == v.len(),
            lines(v@) == views(out@) + lines(v@.skip(start as int)),
        decreases n - start,
    {
        let ghost rest = v@.skip(start as int);
        let mut j: usize = start;
        while j < n && v[j] != '\n'
            invariant
                start <= j <= n == v.len(),
                forall|k: int| start <= k < j ==> v@[k] != '\n',
            decreases n - j,
        {
            j += 1;
        }
        proof {
            lemma_newline_at_is(rest, j - start);
        }
        let ghost before = views(out@);
        if j == n {
            let line = copy_range(v, start, n);
            out.push(line);
            assert(views(out@) =~= before.push(rest));
            assert(lines(rest) == seq![rest]);
            start = n;
        } else {
            let mut e: usize = j;
            if e > start && v[e - 1] == '\r' {
                e -= 1;
            }
            let line = copy_range(v, start, e);
            assert(line@ =~= strip_cr(rest.take(j - start)));
            out.push(line);
            assert(views(out@) =~= before.push(line@));
            assert(rest.skip(j - start + 1) =~= v@.skip(j + 1));
            start = j + 1;
        }
    }
    assert(views(out@) + lines(v@.skip(start as int)) =~= views(out@));
    out
}

/// The lines of `ls` joined by line feeds (see [`join_lines`]).
pub fn join_with_newlines(ls: &Vec<Vec<char>>) -> (r: Vec<char>)
    ensures
        r@ == join_lines(views(ls@)),
{
    let mut r: Vec<char> = Vec::new();
    let mut i: usize = 0;
    while i < ls.len()
        invariant
            i <= ls.len(),
            r@ == join_lines(views(ls@).take(i as int)),
        decreases ls.len() - i,
    {
        let ghost prev = views(ls@).take(i as int);
        assert(views(ls@).take(i + 1).drop_last() =~= prev);
        if i > 0 {
            r.push('\n');
        }
        let line = &ls[i];
        let mut k: usize = 0;
        let ghost base = r@;
        while k < line.len()
            invariant
                k <= line.len(),
                r@ == base + line@.take(k as int),
            decreases line.len() - k,
        {
            r.push(line[k]);
            assert(line@.take(k as int).push(line@[k as int]) =~= line@.take(k + 1));
            k += 1;
        }
        assert(line@.take(line.len() as int) =~= line@);
        if i == 0 {
            assert(views(ls@).take(1) =~= seq![line@]);
        }
        assert(r@ =~= join_lines(views(ls@).take(i + 1)));
        i += 1;
    }
    assert(views(ls@).take(ls.len() as int) =~= views(ls@));
    r
}


pub open spec fn no_newline(l: Seq<char>) -> bool {
    forall|j: int| 0 <= j < l.len() ==> l[j] != '\n'
}

/// No line holds a line feed.
pub proof fn lemma_lines_have_no_newline(s: Seq<char>)
    ensures
        forall|i: int| 0 <= i < lines(s).len() ==> no_newline(#[trigger] lines(s)[i]),
    decreases s.len(),
{
    if s.len() > 0 {
        lemma_newline_at_bounds(s);
        let k = newline_at(s);
        if k < s.len() {
            lemma_lines_have_no_newline(s.skip(k + 1));
            let first = strip_cr(s.take(k));
            assert(no_newline(first)) by {
                assert forall|j: int| 0 <= j < first.len() implies first[j] != '\n' by {
                    assert(first[j] == s[j]);
                }
            }
            assert forall|i: int| 0 <= i < lines(s).len() implies no_newline(#[trigger] lines(s)[i]) by {
                if i > 0 {
                    assert(lines(s)[i] == lines(s.skip(k + 1))[i - 1]);
                }
            }
        }
    }
}

/// A line without line feed, then one, then the rest: the first line comes off.
pub proof fn lemma_lines_cons(a: Seq<char>, b: Seq<char>)
    requires
        no_newline(a),
    ensures
        lines(a + seq!['\n'] + b) == seq![strip_cr(a)] + lines(b),
{
    let s = a + seq!['\n'] + b;
    assert forall|i: int| 0 <= i < a.len() implies s[i] != '\n' by {
        assert(s[i] == a[i]);
    }
    lemma_newline_at_is(s, a.len() as int);
    assert(s.take(a.len() as int) =~= a);
    assert(s.skip(a.len() + 1 as int) =~= b);
}

/// Joining takes the first line off the front too.
pub proof fn lemma_join_front(ls: Seq<Seq<char>>)
    requires
        ls.len() >= 2,
    ensures
        join_lines(ls) == ls[0] + seq!['\n'] + join_lines(ls.drop_first()),
    decreases ls.len(),
{
    if ls.len() == 2 {
        assert(ls.drop_last() =~= seq![ls[0]]);
        assert(ls.drop_first() =~= seq![ls[1]]);
        assert(join_lines(ls.drop_last()) == ls[0]);
        assert(join_lines(ls.drop_first()) == ls[1]);
        assert(join_lines(ls) == join_lines(ls.drop_last()) + seq!['\n'] + ls.last());
    } else {
        lemma_join_front(ls.drop_last());
        assert(ls.drop_last().drop_first() =~= ls.drop_first().drop_last());
        assert(ls.drop_first().last() == ls.last());
        assert(ls.drop_last()[0] == ls[0]);
        let a = ls[0] + seq!['\n'];
        let m = join_lines(ls.drop_first().drop_last());
        assert(join_lines(ls) == join_lines(ls.drop_last()) + seq!['\n'] + ls.last());
        assert(join_lines(ls.drop_last()) == a + m);
        assert(join_lines(ls.drop_first()) == m + seq!['\n'] + ls.last());
        assert((a + m) + seq!['\n'] + ls.last() =~= a + (m + seq!['\n'] + ls.last()));
    }
}

/// The lines read back from joined lines: all as they were, but that a line
/// ending in a carriage return, other than the last, loses it.
pub open spec fn reread_lines(ls: Seq<Seq<char>>) -> Seq<Seq<char>> {
    Seq::new(
        ls.len(),
        |i: int|
            if i < ls.len() - 1 {
                strip_cr(ls[i])
            } else {
                ls[i]
            },
    )
}

pub proof fn lemma_lines_of_join(ls: Seq<Seq<char>>)
    requires
        ls.len() >= 1,
        forall|i: int| 0 <= i < ls.len() ==> no_newline(#[trigger] ls[i]),
        ls.last().len() > 0,
    ensures
        lines(join_lines(ls)) == reread_lines(ls),
    decreases ls.len(),
{
    if ls.len() == 1 {
        let l = ls[0];
        assert(no_newline(l));
        lemma_newline_at_is(l, l.len() as int);
        assert(l.skip(l.len() as int).len() == 0);
        assert(lines(l) =~= seq![l]);
        assert(reread_lines(ls) =~= seq![l]);
    } else {
        lemma_join_front(ls);
        let rest = ls.drop_first();
        assert forall|i: int| 0 <= i < rest.len() implies no_newline(#[trigger] rest[i]) by {
            assert(rest[i] == ls[i + 1]);
        }
        lemma_lines_of_join(rest);
        assert(no_newline(ls[0]));
        lemma_lines_cons(ls[0], join_lines(rest));
        assert(lines(join_lines(ls)) =~= reread_lines(ls));
    }
}

/// A white space character more at the end changes nothing of the trimmed text.
pub proof fn lemma_trim_push_white(x: Seq<char>, w: char)
    requires
        is_white_space(w),
    ensures
        trim(x.push(w)) == trim(x),
    decreases x.len(),
{
    if x.len() == 0 {
        assert(x.push(w).drop_first() =~= Seq::<char>::empty());
        assert(trim_start(Seq::<char>::empty()) == Seq::<char>::empty());
    } else if is_white_space(x[0]) {
        assert(x.push(w).drop_first() =~= x.drop_first().push(w));
        lemma_trim_push_white(x.drop_first(), w);
    } else {
        assert(trim_start(x.push(w)) == x.push(w));
        assert(trim_start(x) == x);
        assert(x.push(w).drop_last() =~= x);
    }
}

/// Dropping a final carriage return changes nothing of the trimmed text.
pub proof fn lemma_trim_strip_cr(l: Seq<char>)
    ensures
        trim(strip_cr(l)) == trim(l),
{
    if l.len() > 0 && l.last() == '\r' {
        assert(l.drop_last().push('\r') =~= l);
        lemma_trim_push_white(l.drop_last(), '\r');
    }
}

/// Trimming keeps a first character that is no white space.
pub proof fn lemma_trim_keeps_head(s: Seq<char>)
    requires
        s.len() > 0,
        !is_white_space(s[0]),
    ensures
        trim(s).len() > 0,
        trim(s)[0] == s[0],
    decreases s.len(),
{
    assert(trim_start(s) == s);
    if is_white_space(s.last()) {
        assert(s.len() >= 2);
        lemma_trim_keeps_head(s.drop_last());
        assert(trim_start(s.drop_last()) == s.drop_last());
    }
}

} // verus!
