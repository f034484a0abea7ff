use vstd::prelude::*;

use crate::text::{
    chars_of, copy_range, has_prefix, is_white_space, join_lines, join_with_newlines,
    lemma_lines_cons, lemma_lines_have_no_newline, lemma_lines_of_join,
    lemma_newline_at_bounds, lemma_newline_at_is, newline_at, lemma_trim_keeps_head, lemma_trim_strip_cr,
    lines, lines_of, no_newline, reread_lines, string_of, strip_cr, trim, trim_chars, trim_end,
    trim_start, views,
};

verus! {

/// The port the admin service listens on when `.env` names none.
pub const DEFAULT_PORT: u16 = 8080;

pub open spec fn is_digit(c: char) -> bool {
    '0' <= c && c <= '9'
}

pub open spec fn digit_value(c: char) -> nat {
    (c as int - '0' as int) as nat
}

/// The number that the decimal digits `d` write.
pub open spec fn digits_value(d: Seq<char>) -> nat
    decreases d.len(),
{
    if d.len() == 0 {
        0
    } else {
        10 * digits_value(d.drop_last()) + digit_value(d.last())
    }
}

pub open spec fn all_digits(d: Seq<char>) -> bool {
    forall|i: int| 0 <= i < d.len() ==> is_digit(#[trigger] d[i])
}

/// What `str::parse::<u16>` gives: an optional `+`, then one or more decimal
/// digits whose value fits in 16 bits.
pub open spec fn parse_u16(s: Seq<char>) -> Option<u16> {
    let d = if s.len() > 0 && s[0] == '+' {
        s.drop_first()
    } else {
        s
    };
    if d.len() > 0 && all_digits(d) && digits_value(d) <= 65535 {
        Some(digits_value(d) as u16)
    } else {
        None
    }
}

pub open spec fn digit_char(d: nat) -> char {
    seq!['0', '1', '2', '3', '4', '5', '6', '7', '8', '9'][d as int]
}

/// The decimal numeral of `n`, without leading zeros.
pub open spec fn decimal(n: nat) -> Seq<char>
    decreases n,
{
    if n < 10 {
        seq![digit_char(n)]
    } else {
        decimal(n / 10).push(digit_char(n % 10))
    }
}

/// The key of the port setting; its only `=` is its last character, so the
/// value is what follows the first `=` of the line.
pub open spec fn port_key() -> Seq<char> {
    seq!['C', 'O', 'D', 'E', 'X', '_', 'P', 'O', 'R', 'T', '=']
}

/// The port that one line of `.env` sets: the line, trimmed, is no comment and
/// starts with `CODEX_PORT=`, and the rest, trimmed, is a valid `u16`.
pub open spec fn port_of_line(line: Seq<char>) -> Option<u16> {
    let t = trim(line);
    if t.len() > 0 && t[0] == '#' {
        None
    } else if port_key().is_prefix_of(t) {
        parse_u16(trim(t.skip(port_key().len() as int)))
    } else {
        None
    }
}

/// The port of the first line of `ls` that sets one.
pub open spec fn first_port(ls: Seq<Seq<char>>) -> Option<u16>
    decreases ls.len(),
{
    if ls.len() == 0 {
        None
    } else {
        match port_of_line(ls[0]) {
            Some(p) => Some(p),
            None => first_port(ls.drop_first()),
        }
    }
}

/// The port that the contents of a `.env` file set, if any.
pub open spec fn port_setting(content: Seq<char>) -> Option<u16> {
    first_port(lines(content))
}

/// The port the backend is reached on: the one `.env` sets, else [`DEFAULT_PORT`]
/// (also when `.env` could not be read, `None`).
pub open spec fn effective_port(content: Option<Seq<char>>) -> u16 {
    match content {
        Some(c) => match port_setting(c) {
            Some(p) => p,
            None => DEFAULT_PORT,
        },
        None => DEFAULT_PORT,
    }
}

fn is_digit_char(c: char) -> (b: bool)
    ensures
        b == is_digit(c),
{
    '0' <= c && c <= '9'
}

fn digit_of(c: char) -> (d: u32)
    requires
        is_digit(c),
    ensures
        d == digit_value(c),
        d < 10,
{
    (c as u32) - ('0' as u32)
}

/// `s` read as a `u16` (see [`parse_u16`]).
pub fn parse_u16_chars(s: &Vec<char>) -> (r: Option<u16>)
    ensures
        r == parse_u16(s@),
{
    let n = s.len();
    let start: usize = if n > 0 && s[0] == '+' {
        1
    } else {
        0
    };
    let ghost d = if s@.len() > 0 && s@[0] == '+' {
        s@.drop_first()
    } else {
        s@
    };
    assert(d =~= s@.subrange(start as int, n as int));
    if start == n {
        return None;
    }
    let mut value: u32 = 0;
    let mut overflow = false;
    let mut i: usize = start;
    assert(s@.subrange(start as int, start as int) =~= Seq::<char>::empty());
    while i < n
        invariant
            start <= i <= n == s.len(),
            d =~= s@.subrange(start as int, n as int),
            d == (if s@.len() > 0 && s@[0] == '+' {
                s@.drop_first()
            } else {
                s@
            }),
            forall|k: int| start <= k < i ==> is_digit(#[trigger] s@[k]),
            !overflow ==> value == digits_value(s@.subrange(start as int, i as int)) && value
                <= 65535,
            overflow ==> digits_value(s@.subrange(start as int, i as int)) > 65535,
        decreases n - i,
    {
        let c = s[i];
        if !is_digit_char(c) {
            assert(d[i - start] == s@[i as int]);
            assert(!is_digit(d[i - start]));
            assert(!all_digits(d));
            return None;
        }
        let ghost prefix = s@.subrange(start as int, i as int);
        assert(s@.subrange(start as int, i + 1).drop_last() =~= prefix);
        let dv = digit_of(c);
        if !overflow {
            value = value * 10 + dv;
            if value > 65535 {
                overflow = true;
            }
        }
        i += 1;
    }
    assert(s@.subrange(start as int, n as int) =~= d);
    assert(all_digits(d));
    if overflow {
        None
    } else {
        Some(value as u16)
    }
}

fn port_key_chars() -> (v: Vec<char>)
    ensures
        v@ == port_key(),
{
    let v = vec!['C', 'O', 'D', 'E', 'X', '_', 'P', 'O', 'R', 'T', '='];
    assert(v@ =~= port_key());
    v
}

/// The port that one line of `.env` sets (see [`port_of_line`]).
pub fn line_port(line: &Vec<char>) -> (r: Option<u16>)
    ensures
        r == port_of_line(line@),
{
    let t = trim_chars(line);
    if t.len() > 0 && t[0] == '#' {
        return None;
    }
    let key = port_key_chars();
    if !has_prefix(&t, &key) {
        return None;
    }
    let value = copy_range(&t, key.len(), t.len());
    assert(value@ =~= t@.skip(port_key().len() as int));
    let value = trim_chars(&value);
    parse_u16_chars(&value)
}

/// The port that `.env` contents set: that of the first line that sets one.
pub fn parse_port(env_content: &str) -> (r: Option<u16>)
    ensures
        r == port_setting(env_content@),
{
    let cs = chars_of(env_content);
    let ls = lines_of(&cs);
    let mut i: usize = 0;
    assert(views(ls@).skip(0) =~= views(ls@));
    while i < ls.len()
        invariant
            i <= ls.len(),
            port_setting(env_content@) == first_port(views(ls@).skip(i as int)),
            views(ls@) == lines(cs@),
            cs@ == env_content@,
        decreases ls.len() - i,
    {
        let ghost rest = views(ls@).skip(i as int);
        assert(rest[0] == ls@[i as int]@);
        assert(rest.drop_first() =~= views(ls@).skip(i + 1));
        match line_port(&ls[i]) {
            Some(p) => {
                return Some(p);
            },
            None => {},
        }
        i += 1;
    }
    None
}

/// The port to reach the backend on, from the contents of `.env` (`None` where
/// it could not be read): its setting, else [`DEFAULT_PORT`].
pub fn configured_port(env_content: Option<&str>) -> (p: u16)
    ensures
        p == effective_port(
            match env_content {
                Some(c) => Some(c@),
                None => None,
            },
        ),
{
    match env_content {
        Some(c) => match parse_port(c) {
            Some(p) => p,
            None => DEFAULT_PORT,
        },
        None => DEFAULT_PORT,
    }
}


fn digit_char_of(d: u32) -> (c: char)
    requires
        d < 10,
    ensures
        c == digit_char(d as nat),
{
    match d {
        0 => '0',
        1 => '1',
        2 => '2',
        3 => '3',
        4 => '4',
        5 => '5',
        6 => '6',
        7 => '7',
        8 => '8',
        _ => '9',
    }
}

/// The decimal numeral of `n` (see [`decimal`]).
pub fn decimal_chars(n: u32) -> (v: Vec<char>)
    ensures
        v@ == decimal(n as nat),
    decreases n,
{
    if n < 10 {
        let v = vec![digit_char_of(n)];
        assert(v@ =~= seq![digit_char(n as nat)]);
        v
    } else {
        let mut v = decimal_chars(n / 10);
        v.push(digit_char_of(n % 10));
        v
    }
}

pub proof fn lemma_digit_char(k: nat)
    requires
        k < 10,
    ensures
        is_digit(digit_char(k)),
        digit_value(digit_char(k)) == k,
{
    if k == 0 {
    } else if k == 1 {
    } else if k == 2 {
    } else if k == 3 {
    } else if k == 4 {
    } else if k == 5 {
    } else if k == 6 {
    } else if k == 7 {
    } else if k == 8 {
    } else {
        assert(k == 9);
    }
}

/// A numeral is a non-empty run of digits that reads back as its number.
pub proof fn lemma_decimal(n: nat)
    ensures
        decimal(n).len() > 0,
        all_digits(decimal(n)),
        digits_value(decimal(n)) == n,
    decreases n,
{
    if n < 10 {
        lemma_digit_char(n);
        assert(decimal(n).drop_last() =~= Seq::<char>::empty());
        assert(digits_value(Seq::<char>::empty()) == 0);
        assert(decimal(n).last() == digit_char(n));
        assert(digits_value(decimal(n)) == 10 * digits_value(decimal(n).drop_last()) + digit_value(decimal(n).last()));
    } else {
        lemma_decimal(n / 10);
        lemma_digit_char(n % 10);
        let d = decimal(n);
        assert(d.drop_last() =~= decimal(n / 10));
        assert(d.last() == digit_char(n % 10));
        assert(n == 10 * (n / 10) + n % 10) by (nonlinear_arith);
        assert(digits_value(d) == 10 * digits_value(decimal(n / 10)) + digit_value(d.last()));
        assert forall|i: int| 0 <= i < d.len() implies is_digit(#[trigger] d[i]) by {
            if i < d.len() - 1 {
                assert(d[i] == decimal(n / 10)[i]);
            }
        }
    }
}

/// Writing `CODEX_PORT=<p>` into `.env` makes `p` the port that it sets.
pub proof fn lemma_port_setting_roundtrip(p: u16)
    ensures
        port_setting(port_key() + decimal(p as nat)) == Some(p),
{
    let d = decimal(p as nat);
    lemma_decimal(p as nat);
    let line = port_key() + d;
    assert(line[0] == 'C');
    assert(line.last() == d.last());
    assert(is_digit(d[d.len() - 1]));
    // The line holds no line feed, so it is the only line.
    assert forall|i: int| 0 <= i < line.len() implies line[i] != '\n' by {
        if i >= port_key().len() {
            assert(line[i] == d[i - port_key().len()]);
            assert(is_digit(d[i - port_key().len()]));
        }
    }
    crate::text::lemma_newline_at_is(line, line.len() as int);
    assert(lines(line.skip(line.len() as int)) == Seq::<Seq<char>>::empty()) by {
        assert(line.skip(line.len() as int).len() == 0);
    }
    assert(lines(line) =~= seq![line]);
    // Trimming changes neither the line nor the numeral.
    assert(trim_start(line) == line);
    assert(trim_end(line) == line);
    assert(d[0] != '+' && !is_white_space(d[0]) && !is_white_space(d.last())) by {
        assert(is_digit(d[0]));
    }
    assert(trim_start(d) == d);
    assert(trim_end(d) == d);
    assert(port_key().is_prefix_of(line)) by {
        assert(line.take(port_key().len() as int) =~= port_key());
    }
    assert(line.skip(port_key().len() as int) =~= d);
    assert(seq![line].drop_first() =~= Seq::<Seq<char>>::empty());
}

/// The key of the database path setting.
pub open spec fn db_key() -> Seq<char> {
    seq!['D', 'A', 'T', 'A', 'B', 'A', 'S', 'E', '_', 'P', 'A', 'T', 'H', '=']
}

/// `path` with every backslash turned into a slash.
pub open spec fn normalized(path: Seq<char>) -> Seq<char> {
    path.map_values(|c: char| if c == '\\' { '/' } else { c })
}

/// The `.env` line that points the backend at the SQLite file `db_path`.
pub open spec fn db_line(db_path: Seq<char>) -> Seq<char> {
    db_key() + normalized(db_path)
}

/// `ls` with every line that starts with `DATABASE_PATH=` replaced by `line`.
pub open spec fn replace_db_lines(ls: Seq<Seq<char>>, line: Seq<char>) -> Seq<Seq<char>> {
    ls.map_values(|l: Seq<char>| if db_key().is_prefix_of(l) { line } else { l })
}

pub open spec fn has_db_line(ls: Seq<Seq<char>>) -> bool {
    exists|i: int| 0 <= i < ls.len() && db_key().is_prefix_of(#[trigger] ls[i])
}

/// The comment that closes the generated `.env`.
pub open spec fn env_note() -> Seq<char> {
    "# 说明：桌面版默认使用本地 SQLite 文件，必要时可自行修改为其他配置。"@
}

/// The lines of the generated `.env`: the template's lines with each
/// `DATABASE_PATH=` line pointing at `db_path` (one is added at the end where
/// there is none), then an empty line and [`env_note`].
pub open spec fn default_env_lines(template: Seq<char>, db_path: Seq<char>) -> Seq<Seq<char>> {
    let ls = lines(template);
    let d = db_line(db_path);
    let body = replace_db_lines(ls, d);
    let body = if has_db_line(ls) {
        body
    } else {
        body.push(d)
    };
    body.push(Seq::<char>::empty()).push(env_note())
}

/// The generated `.env`: its lines joined by line feeds.
pub open spec fn default_env(template: Seq<char>, db_path: Seq<char>) -> Seq<char> {
    join_lines(default_env_lines(template, db_path))
}

/// The path as the backend's configuration writes it: backslashes become slashes.
pub fn normalize_path(path: &str) -> (r: String)
    ensures
        r@ == normalized(path@),
{
    let cs = chars_of(path);
    let mut out: Vec<char> = Vec::new();
    let mut i: usize = 0;
    while i < cs.len()
        invariant
            i <= cs.len(),
            cs@ == path@,
            out@ == normalized(cs@.take(i as int)),
        decreases cs.len() - i,
    {
        let c = cs[i];
        if c == '\\' {
            out.push('/');
        } else {
            out.push(c);
        }
        assert(normalized(cs@.take(i + 1)) =~= normalized(cs@.take(i as int)).push(
            if c == '\\' { '/' } else { c },
        ));
        i += 1;
    }
    assert(cs@.take(cs.len() as int) =~= cs@);
    string_of(&out)
}

fn db_key_chars() -> (v: Vec<char>)
    ensures
        v@ == db_key(),
{
    let v = vec!['D', 'A', 'T', 'A', 'B', 'A', 'S', 'E', '_', 'P', 'A', 'T', 'H', '='];
    assert(v@ =~= db_key());
    v
}

/// The default `.env` made from the SQLite template: see [`default_env`].
pub fn render_default_env(template: &str, db_path: &str) -> (r: String)
    ensures
        r@ == default_env(template@, db_path@),
{
    let key = db_key_chars();
    let path = chars_of(normalize_path(db_path).as_str());
    let mut db_value = key.clone();
    let mut k: usize = 0;
    while k < path.len()
        invariant
            k <= path.len(),
            key@ == db_key(),
            path@ == normalized(db_path@),
            db_value@ == db_key() + path@.take(k as int),
        decreases path.len() - k,
    {
        db_value.push(path[k]);
        assert(path@.take(k as int).push(path@[k as int]) =~= path@.take(k + 1));
        k += 1;
    }
    assert(path@.take(path.len() as int) =~= path@);
    assert(db_value@ == db_line(db_path@));
    let cs = chars_of(template);
    let ls = lines_of(&cs);
    let ghost tl = lines(template@);
    let mut out: Vec<Vec<char>> = Vec::new();
    let mut has_db_path = false;
    let mut i: usize = 0;
    while i < ls.len()
        invariant
            i <= ls.len(),
            views(ls@) == tl,
            key@ == db_key(),
            db_value@ == db_line(db_path@),
            views(out@) == replace_db_lines(tl.take(i as int), db_value@),
            has_db_path == has_db_line(tl.take(i as int)),
        decreases ls.len() - i,
    {
        let line = &ls[i];
        assert(tl[i as int] == line@);
        let is_db = has_prefix(line, &key);
        let ghost before = views(out@);
        if is_db {
            out.push(db_value.clone());
            has_db_path = true;
        } else {
            out.push(line.clone());
        }
        assert(views(out@) =~= before.push(out@[i as int]@));
        assert(replace_db_lines(tl.take(i + 1), db_value@) =~= replace_db_lines(
            tl.take(i as int),
            db_value@,
        ).push(if is_db { db_value@ } else { line@ }));
        proof {
            if is_db {
                assert(tl.take(i + 1)[i as int] == line@);
            } else {
                if has_db_line(tl.take(i + 1)) {
                    let j = choose|j: int|
                        0 <= j < i + 1 && db_key().is_prefix_of(#[trigger] tl.take(i + 1)[j]);
                    assert(tl.take(i as int)[j] == tl.take(i + 1)[j]);
                }
            }
            if has_db_line(tl.take(i as int)) {
                let j = choose|j: int|
                    0 <= j < i && db_key().is_prefix_of(#[trigger] tl.take(i as int)[j]);
                assert(tl.take(i + 1)[j] == tl.take(i as int)[j]);
            }
        }
        i += 1;
    }
    assert(tl.take(ls.len() as int) =~= tl);
    if !has_db_path {
        let ghost before = views(out@);
        out.push(db_value);
        assert(views(out@) =~= before.push(db_line(db_path@)));
    }
    let ghost before = views(out@);
    out.push(Vec::new());
    assert(views(out@) =~= before.push(Seq::<char>::empty()));
    let note = chars_of("# 说明：桌面版默认使用本地 SQLite 文件，必要时可自行修改为其他配置。");
    let ghost before = views(out@);
    out.push(note);
    assert(views(out@) =~= before.push(env_note()));
    assert(views(out@) =~= default_env_lines(template@, db_path@));
    let joined = join_with_newlines(&out);
    string_of(&joined)
}


/// A line whose first character is neither white space, `#` nor `C` sets no port.
proof fn lemma_no_port_by_head(l: Seq<char>)
    requires
        l.len() > 0,
        !is_white_space(l[0]),
        l[0] != 'C',
    ensures
        port_of_line(l) is None,
{
    lemma_trim_keeps_head(l);
}

/// Ports read the same from two lists whose lines set the same ports.
proof fn lemma_first_port_pointwise(xs: Seq<Seq<char>>, ys: Seq<Seq<char>>)
    requires
        xs.len() == ys.len(),
        forall|i: int| 0 <= i < xs.len() ==> port_of_line(#[trigger] xs[i]) == port_of_line(ys[i]),
    ensures
        first_port(xs) == first_port(ys),
    decreases xs.len(),
{
    if xs.len() > 0 {
        assert(port_of_line(xs[0]) == port_of_line(ys[0]));
        assert forall|i: int| 0 <= i < xs.drop_first().len() implies port_of_line(
            #[trigger] xs.drop_first()[i],
        ) == port_of_line(ys.drop_first()[i]) by {
            assert(port_of_line(xs[i + 1]) == port_of_line(ys[i + 1]));
        }
        lemma_first_port_pointwise(xs.drop_first(), ys.drop_first());
    }
}

/// Lines that set no port, added at the end, change no port setting.
proof fn lemma_first_port_append_silent(xs: Seq<Seq<char>>, ys: Seq<Seq<char>>)
    requires
        forall|i: int| 0 <= i < ys.len() ==> port_of_line(#[trigger] ys[i]) is None,
    ensures
        first_port(xs + ys) == first_port(xs),
    decreases xs.len() + ys.len(),
{
    if xs.len() > 0 {
        assert((xs + ys)[0] == xs[0]);
        assert((xs + ys).drop_first() =~= xs.drop_first() + ys);
        lemma_first_port_append_silent(xs.drop_first(), ys);
    } else if ys.len() > 0 {
        assert(xs + ys =~= ys);
        assert(port_of_line(ys[0]) is None);
        assert forall|i: int| 0 <= i < ys.drop_first().len() implies port_of_line(
            #[trigger] ys.drop_first()[i],
        ) is None by {
            assert(port_of_line(ys[i + 1]) is None);
        }
        lemma_first_port_append_silent(xs, ys.drop_first());
        assert(xs + ys.drop_first() =~= ys.drop_first());
    } else {
        assert(xs + ys =~= xs);
    }
}

/// The generated `.env` sets the port that the template sets (or none where it
/// sets none), provided the database path holds no line feed.
pub proof fn lemma_default_env_keeps_port(template: Seq<char>, db_path: Seq<char>)
    requires
        no_newline(db_path),
    ensures
        port_setting(default_env(template, db_path)) == port_setting(template),
{
    let tl = lines(template);
    let d = db_line(db_path);
    let note = env_note();
    let ls = default_env_lines(template, db_path);
    let body = replace_db_lines(tl, d);
    let extra = if has_db_line(tl) {
        seq![Seq::<char>::empty(), note]
    } else {
        seq![d, Seq::<char>::empty(), note]
    };
    assert(ls =~= body + extra);
    reveal_strlit("# 说明：桌面版默认使用本地 SQLite 文件，必要时可自行修改为其他配置。");
    assert(note[0] == '#');
    assert(no_newline(note));
    assert(d[0] == 'D');
    assert(no_newline(d)) by {
        assert forall|j: int| 0 <= j < d.len() implies d[j] != '\n' by {
            if j >= db_key().len() {
                assert(d[j] == normalized(db_path)[j - db_key().len()]);
            }
        }
    }
    // Every line is free of line feeds, and the last one is not empty.
    lemma_lines_have_no_newline(template);
    assert forall|i: int| 0 <= i < ls.len() implies no_newline(#[trigger] ls[i]) by {
        if i < body.len() {
            assert(no_newline(tl[i]));
        } else {
            let e = extra[i - body.len()];
            assert(ls[i] == e);
            assert(e == d || e == Seq::<char>::empty() || e == note);
        }
    }
    assert(ls.last() == note);
    lemma_lines_of_join(ls);
    // Reading the joined lines back sets the same ports as the lines did.
    let back = reread_lines(ls);
    assert forall|i: int| 0 <= i < back.len() implies port_of_line(#[trigger] back[i])
        == port_of_line(ls[i]) by {
        lemma_trim_strip_cr(ls[i]);
    }
    lemma_first_port_pointwise(back, ls);
    // The appended lines set no port.
    assert forall|i: int| 0 <= i < extra.len() implies port_of_line(#[trigger] extra[i]) is None by {
        let e = extra[i];
        if e == note || e == d {
            lemma_no_port_by_head(e);
        } else {
            assert(e.len() == 0);
            assert(trim_start(e) == e);
            assert(trim_end(e) == e);
        }
    }
    lemma_first_port_append_silent(body, extra);
    // Replaced lines set no port, and neither did the lines they replace.
    assert forall|i: int| 0 <= i < body.len() implies port_of_line(#[trigger] body[i])
        == port_of_line(tl[i]) by {
        if db_key().is_prefix_of(tl[i]) {
            assert(tl[i][0] == db_key()[0]);
            lemma_no_port_by_head(tl[i]);
            lemma_no_port_by_head(d);
        }
    }
    lemma_first_port_pointwise(body, tl);
}


/// Normalizing leaves no backslash, keeps the length, and changes nothing the
/// second time.
pub proof fn lemma_normalized_is_final(path: Seq<char>)
    ensures
        normalized(path).len() == path.len(),
        !normalized(path).contains('\\'),
        normalized(normalized(path)) == normalized(path),
{
    let n = normalized(path);
    assert(normalized(n) =~= n);
    if n.contains('\\') {
        let i = choose|i: int| 0 <= i < n.len() && n[i] == '\\';
        assert(n[i] == (if path[i] == '\\' { '/' } else { path[i] }));
    }
}

/// The generated `.env` always points the backend at the given database: it
/// holds the line `DATABASE_PATH=<db_path>` (backslashes as slashes), and every
/// line that sets `DATABASE_PATH` is that line.
pub proof fn lemma_default_env_points_at_db(template: Seq<char>, db_path: Seq<char>)
    ensures
        default_env_lines(template, db_path).contains(db_line(db_path)),
        forall|i: int|
            0 <= i < default_env_lines(template, db_path).len() && db_key().is_prefix_of(
                #[trigger] default_env_lines(template, db_path)[i],
            ) ==> default_env_lines(template, db_path)[i] == db_line(db_path),
{
    let tl = lines(template);
    let d = db_line(db_path);
    let ls = default_env_lines(template, db_path);
    let body = replace_db_lines(tl, d);
    let note = env_note();
    reveal_strlit("# 说明：桌面版默认使用本地 SQLite 文件，必要时可自行修改为其他配置。");
    assert(note[0] == '#');
    if has_db_line(tl) {
        let j = choose|j: int| 0 <= j < tl.len() && db_key().is_prefix_of(#[trigger] tl[j]);
        assert(ls[j] == d);
    } else {
        assert(ls[body.len() as int] == d);
    }
    assert forall|i: int| 0 <= i < ls.len() && db_key().is_prefix_of(#[trigger] ls[i]) implies ls[i]
        == d by {
        if i >= body.len() {
            let e = ls[i];
            if e != d {
                assert(e == Seq::<char>::empty() || e == note);
                assert(e[0] == db_key()[0]);
            }
        }
    }
}


/// The first line that sets a port wins: text appended after a line feed
/// never changes a port that `.env` already sets.
pub proof fn lemma_port_setting_first_wins(content: Seq<char>, more: Seq<char>, p: u16)
    requires
        port_setting(content) == Some(p),
    ensures
        port_setting(content + seq!['\n'] + more) == Some(p),
    decreases content.len(),
{
    let c = content;
    let s = c + seq!['\n'] + more;
    assert(c.len() > 0);
    lemma_newline_at_bounds(c);
    let k = newline_at(c);
    if k < c.len() {
        let a = c.take(k);
        let b = c.skip(k + 1);
        assert(no_newline(a)) by {
            assert forall|j: int| 0 <= j < a.len() implies a[j] != '\n' by {
                assert(a[j] == c[j]);
            }
        }
        assert(c =~= a + seq!['\n'] + b);
        lemma_lines_cons(a, b);
        assert(s =~= a + seq!['\n'] + (b + seq!['\n'] + more));
        lemma_lines_cons(a, b + seq!['\n'] + more);
        let lc = lines(c);
        let ls = lines(s);
        assert(lc[0] == strip_cr(a) && ls[0] == strip_cr(a));
        assert(lc.drop_first() =~= lines(b));
        assert(ls.drop_first() =~= lines(b + seq!['\n'] + more));
        if port_of_line(strip_cr(a)) is None {
            assert(first_port(lc) == first_port(lines(b)));
            lemma_port_setting_first_wins(b, more, p);
        }
    } else {
        assert(no_newline(c)) by {
            assert forall|j: int| 0 <= j < c.len() implies c[j] != '\n' by {}
        }
        lemma_newline_at_is(c, c.len() as int);
        assert(c.skip(c.len() as int).len() == 0);
        assert(lines(c) =~= seq![c]);
        assert(seq![c].drop_first() =~= Seq::<Seq<char>>::empty());
        assert(port_of_line(c) == Some(p));
        lemma_lines_cons(c, more);
        lemma_trim_strip_cr(c);
        assert(lines(s)[0] == strip_cr(c));
    }
}


/// Normalizing a path changes nothing but backslashes, each into a slash: a
/// path without backslashes is written into `DATABASE_PATH=` as it is.
pub proof fn lemma_normalize_changes_only_backslashes(path: Seq<char>)
    ensures
        normalized(path).len() == path.len(),
        forall|i: int|
            0 <= i < path.len() ==> (#[trigger] normalized(path)[i] == if path[i] == '\\' {
                '/'
            } else {
                path[i]
            }),
        !path.contains('\\') ==> normalized(path) == path,
        !path.contains('\\') ==> db_line(path) == "DATABASE_PATH="@ + path,
{
    if !path.contains('\\') {
        assert forall|i: int| 0 <= i < path.len() implies normalized(path)[i] == path[i] by {
            if path[i] == '\\' {
                assert(path.contains('\\'));
            }
        }
        assert(normalized(path) =~= path);
        reveal_strlit("DATABASE_PATH=");
        assert(db_key() =~= "DATABASE_PATH="@);
    }
}

/// Lines that set no port, put before the rest, do not change the port used.
pub proof fn lemma_port_ignores_lines_before(line: Seq<char>, rest: Seq<char>)
    requires
        no_newline(line),
        port_of_line(line) is None,
    ensures
        port_setting(line + seq!['\n'] + rest) == port_setting(rest),
        effective_port(Some(line + seq!['\n'] + rest)) == effective_port(Some(rest)),
{
    lemma_lines_cons(line, rest);
    lemma_trim_strip_cr(line);
    let ls = lines(line + seq!['\n'] + rest);
    assert(ls[0] == strip_cr(line));
    assert(ls.drop_first() =~= lines(rest));
}

/// A comment line (one starting with `#`) sets no port, wherever it stands.
pub proof fn lemma_comment_sets_no_port(line: Seq<char>)
    requires
        line.len() > 0,
        line[0] == '#',
    ensures
        port_of_line(line) is None,
{
    lemma_trim_keeps_head(line);
}

/// The port used is the one `.env` sets on whichever line: a comment put in
/// front changes nothing, `CODEX_PORT=<p>` after any comment gives `p`, text
/// after a setting does not override it, and without a setting 8080 is used.
pub proof fn lemma_effective_port_laws(comment: Seq<char>, content: Seq<char>, more: Seq<char>, p: u16)
    requires
        comment.len() > 0,
        comment[0] == '#',
        no_newline(comment),
    ensures
        effective_port(Some(comment + seq!['\n'] + content)) == effective_port(Some(content)),
        effective_port(Some(comment + seq!['\n'] + "CODEX_PORT="@ + decimal(p as nat))) == p,
        port_setting(content) == Some(p) ==> effective_port(Some(content + seq!['\n'] + more)) == p,
        port_setting(content) is None ==> effective_port(Some(content)) == 8080,
        effective_port(None) == 8080,
{
    lemma_comment_sets_no_port(comment);
    lemma_port_ignores_lines_before(comment, content);
    reveal_strlit("CODEX_PORT=");
    assert("CODEX_PORT="@ =~= port_key());
    lemma_port_setting_roundtrip(p);
    let line = port_key() + decimal(p as nat);
    lemma_port_ignores_lines_before(comment, line);
    assert(comment + seq!['\n'] + "CODEX_PORT="@ + decimal(p as nat) =~= comment + seq!['\n'] + line);
    if port_setting(content) == Some(p) {
        lemma_port_setting_first_wins(content, more, p);
    }
}

} // verus!
