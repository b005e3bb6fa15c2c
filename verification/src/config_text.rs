//! The text form of the user configuration: a small subset of TOML.
//!
//! Each line is blank, a `#` comment, the table header `[line_counting]`, or
//! `key = value`, where a value is `true`/`false`, a decimal integer, a
//! basic string in double quotes (escapes `\"`, `\\`, `\n`, `\r`, `\t`), or
//! an array of such strings. Blanks, tabs and carriage returns around keys,
//! values and lines are ignored.
use vstd::prelude::*;

use crate::config::{Config, LineCountingConfig};
use crate::paths::views;
use crate::text::decimal;

verus! {

/// The fields of a configuration: default roots, snapshot database, report
/// directory, ignore globs, whether to follow symlinks, line-counting
/// extensions and line-counting size limit.
pub type ConfigValue = (
    Seq<Seq<char>>,
    Option<Seq<char>>,
    Option<Seq<char>>,
    Seq<Seq<char>>,
    bool,
    Seq<Seq<char>>,
    Option<u64>,
);

/// Where the parser stands: inside the `[line_counting]` table or not, and
/// the fields read so far.
pub type ParseState = (bool, ConfigValue);

/// The fields of the default configuration.
pub open spec fn default_value() -> ConfigValue {
    (Seq::empty(), None, None, Seq::empty(), false, Seq::empty(), None)
}

pub open spec fn is_blank(c: char) -> bool {
    c == ' ' || c == '\t' || c == '\r'
}

/// `s` without its leading blanks.
pub open spec fn ltrim(s: Seq<char>) -> Seq<char>
    decreases s.len(),
{
    if s.len() > 0 && is_blank(s[0]) {
        ltrim(s.drop_first())
    } else {
        s
    }
}

/// `s` without its trailing blanks.
pub open spec fn rtrim(s: Seq<char>) -> Seq<char>
    decreases s.len(),
{
    if s.len() > 0 && is_blank(s.last()) {
        rtrim(s.drop_last())
    } else {
        s
    }
}

/// `s` without blanks at either end.
pub open spec fn trim(s: Seq<char>) -> Seq<char> {
    rtrim(ltrim(s))
}

/// Index of the first `c` in `s`, or `s.len()` when there is none.
pub open spec fn index_of(s: Seq<char>, c: char) -> nat
    decreases s.len(),
{
    if s.len() == 0 || s[0] == c {
        0
    } else {
        1 + index_of(s.drop_first(), c)
    }
}

/// How one character is written inside a basic string.
pub open spec fn escaped_char(c: char) -> Seq<char> {
    if c == '"' {
        seq!['\\', '"']
    } else if c == '\\' {
        seq!['\\', '\\']
    } else if c == '\n' {
        seq!['\\', 'n']
    } else if c == '\r' {
        seq!['\\', 'r']
    } else if c == '\t' {
        seq!['\\', 't']
    } else {
        seq![c]
    }
}

/// The characters of `s`, each written as inside a basic string.
pub open spec fn escaped(s: Seq<char>) -> Seq<char>
    decreases s.len(),
{
    if s.len() == 0 {
        Seq::empty()
    } else {
        escaped_char(s[0]) + escaped(s.drop_first())
    }
}

/// `s` as a basic string literal.
pub open spec fn quoted(s: Seq<char>) -> Seq<char> {
    seq!['"'] + escaped(s) + seq!['"']
}

/// The character that the escape `\c` stands for.
pub open spec fn unescaped_char(c: char) -> Option<char> {
    if c == '"' {
        Some('"')
    } else if c == '\\' {
        Some('\\')
    } else if c == 'n' {
        Some('\n')
    } else if c == 'r' {
        Some('\r')
    } else if c == 't' {
        Some('\t')
    } else {
        None
    }
}

/// Read the rest of a basic string, just after its opening quote: the text
/// it holds and how many characters were read, closing quote included.
pub open spec fn string_body(t: Seq<char>) -> Option<(Seq<char>, nat)>
    decreases t.len(),
{
    if t.len() == 0 {
        None
    } else if t[0] == '"' {
        Some((Seq::empty(), 1))
    } else if t[0] == '\\' {
        if t.len() < 2 {
            None
        } else {
            match unescaped_char(t[1]) {
                None => None,
                Some(c) => match string_body(t.skip(2)) {
                    Some((v, k)) => Some((seq![c] + v, k + 2)),
                    None => None,
                },
            }
        }
    } else {
        match string_body(t.drop_first()) {
            Some((v, k)) => Some((seq![t[0]] + v, k + 1)),
            None => None,
        }
    }
}

/// The string that the value text `v` writes, when it is exactly one basic
/// string.
pub open spec fn string_value(v: Seq<char>) -> Option<Seq<char>> {
    if v.len() > 0 && v[0] == '"' {
        match string_body(v.drop_first()) {
            Some((s, k)) => if k + 1 == v.len() {
                Some(s)
            } else {
                None
            },
            None => None,
        }
    } else {
        None
    }
}

/// Read the rest of an array of strings, after its `[` or after a comma.
pub open spec fn list_rest(t: Seq<char>) -> Option<Seq<Seq<char>>>
    decreases t.len(),
{
    let u = ltrim(t);
    if u.len() == 0 {
        None
    } else if u[0] == ']' {
        if u.len() == 1 {
            Some(Seq::empty())
        } else {
            None
        }
    } else if u[0] == '"' {
        match string_body(u.drop_first()) {
            None => None,
            Some((s, k)) => {
                proof {
                    lemma_ltrim_len(t);
                    lemma_string_body_len(u.drop_first());
                    lemma_ltrim_len(u.skip(k + 1int));
                }
                let w = ltrim(u.skip(k + 1int));
                if w.len() == 0 {
                    None
                } else if w[0] == ']' {
                    if w.len() == 1 {
                        Some(seq![s])
                    } else {
                        None
                    }
                } else if w[0] == ',' {
                    match list_rest(w.drop_first()) {
                        Some(r) => Some(seq![s] + r),
                        None => None,
                    }
                } else {
                    None
                }
            },
        }
    } else {
        None
    }
}

/// The strings that the value text `v` writes, when it is one array of
/// strings.
pub open spec fn list_value(v: Seq<char>) -> Option<Seq<Seq<char>>> {
    if v.len() > 0 && v[0] == '[' {
        list_rest(v.drop_first())
    } else {
        None
    }
}

pub open spec fn true_text() -> Seq<char> {
    seq!['t', 'r', 'u', 'e']
}

pub open spec fn false_text() -> Seq<char> {
    seq!['f', 'a', 'l', 's', 'e']
}

/// The boolean that the value text `v` writes.
pub open spec fn bool_value(v: Seq<char>) -> Option<bool> {
    if v == true_text() {
        Some(true)
    } else if v == false_text() {
        Some(false)
    } else {
        None
    }
}

pub open spec fn is_digit(c: char) -> bool {
    '0' <= c && c <= '9'
}

/// The number that the decimal digits `s` write, after the digits already
/// read gave `acc`.
pub open spec fn digits_from(s: Seq<char>, acc: nat) -> nat
    decreases s.len(),
{
    if s.len() == 0 {
        acc
    } else {
        digits_from(s.drop_first(), acc * 10 + ((s[0] as int - 48) as nat))
    }
}

/// The unsigned 64-bit integer that the value text `v` writes in decimal.
pub open spec fn u64_value(v: Seq<char>) -> Option<u64> {
    if v.len() > 0 && (forall|i: int| 0 <= i < v.len() ==> is_digit(#[trigger] v[i])) && digits_from(v, 0)
        <= u64::MAX {
        Some(digits_from(v, 0) as u64)
    } else {
        None
    }
}

pub open spec fn roots_key() -> Seq<char> {
    "default_roots"@
}

pub open spec fn snapshot_key() -> Seq<char> {
    "snapshot_db"@
}

pub open spec fn report_key() -> Seq<char> {
    "report_dir"@
}

pub open spec fn globs_key() -> Seq<char> {
    "ignore_globs"@
}

pub open spec fn follow_key() -> Seq<char> {
    "follow_symlinks"@
}

pub open spec fn table_key() -> Seq<char> {
    "line_counting"@
}

pub open spec fn extensions_key() -> Seq<char> {
    "extensions"@
}

pub open spec fn max_size_key() -> Seq<char> {
    "max_size_bytes"@
}

/// The key and the value text of a `key = value` line.
pub open spec fn key_value(line: Seq<char>) -> (Seq<char>, Seq<char>) {
    let k = index_of(line, '=') as int;
    (trim(line.take(k)), trim(line.skip(k + 1)))
}

/// The value that `key = v` gives, read in the table `sec`, applied to `c`.
pub open spec fn apply_pair(sec: bool, c: ConfigValue, key: Seq<char>, v: Seq<char>) -> Option<ConfigValue> {
    if !sec && key == roots_key() {
        match list_value(v) {
            Some(l) => Some((l, c.1, c.2, c.3, c.4, c.5, c.6)),
            None => None,
        }
    } else if !sec && key == snapshot_key() {
        match string_value(v) {
            Some(s) => Some((c.0, Some(s), c.2, c.3, c.4, c.5, c.6)),
            None => None,
        }
    } else if !sec && key == report_key() {
        match string_value(v) {
            Some(s) => Some((c.0, c.1, Some(s), c.3, c.4, c.5, c.6)),
            None => None,
        }
    } else if !sec && key == globs_key() {
        match list_value(v) {
            Some(l) => Some((c.0, c.1, c.2, l, c.4, c.5, c.6)),
            None => None,
        }
    } else if !sec && key == follow_key() {
        match bool_value(v) {
            Some(b) => Some((c.0, c.1, c.2, c.3, b, c.5, c.6)),
            None => None,
        }
    } else if sec && key == extensions_key() {
        match list_value(v) {
            Some(l) => Some((c.0, c.1, c.2, c.3, c.4, l, c.6)),
            None => None,
        }
    } else if sec && key == max_size_key() {
        match u64_value(v) {
            Some(n) => Some((c.0, c.1, c.2, c.3, c.4, c.5, Some(n))),
            None => None,
        }
    } else {
        None
    }
}

/// Read one line in state `st`; `None` when the line is not understood.
pub open spec fn apply_line(st: ParseState, raw: Seq<char>) -> Option<ParseState> {
    let line = trim(raw);
    if line.len() == 0 || line[0] == '#' {
        Some(st)
    } else if line[0] == '[' {
        if line.len() >= 2 && line.last() == ']' && trim(line.subrange(1, line.len() - 1)) == table_key() {
            Some((true, st.1))
        } else {
            None
        }
    } else if index_of(line, '=') >= line.len() {
        None
    } else {
        match apply_pair(st.0, st.1, key_value(line).0, key_value(line).1) {
            Some(c) => Some((st.0, c)),
            None => None,
        }
    }
}

/// Read the lines of `t` one after the other, starting in state `st`.
pub open spec fn parse_lines(t: Seq<char>, st: ParseState) -> Option<ParseState>
    decreases t.len(),
{
    let k = index_of(t, '\n') as int;
    match apply_line(st, t.take(k)) {
        None => None,
        Some(s2) => if k >= t.len() {
            Some(s2)
        } else {
            parse_lines(t.skip(k + 1), s2)
        },
    }
}

/// The configuration that the text `t` describes: the default, with each
/// key that `t` sets replaced by its value.
pub open spec fn parse_config(t: Seq<char>) -> Option<ConfigValue> {
    match parse_lines(t, (false, default_value())) {
        Some(st) => Some(st.1),
        None => None,
    }
}

/// The line `key = v`.
pub open spec fn pair_line(key: Seq<char>, v: Seq<char>) -> Seq<char> {
    key + seq![' ', '=', ' '] + v
}

/// The strings of `ss` as the items of an array, separated by `, `.
pub open spec fn list_items_text(ss: Seq<Seq<char>>) -> Seq<char>
    decreases ss.len(),
{
    if ss.len() == 0 {
        Seq::empty()
    } else if ss.len() == 1 {
        quoted(ss[0])
    } else {
        quoted(ss[0]) + seq![',', ' '] + list_items_text(ss.drop_first())
    }
}

/// The strings of `ss` as an array.
pub open spec fn list_text(ss: Seq<Seq<char>>) -> Seq<char> {
    seq!['['] + list_items_text(ss) + seq![']']
}

pub open spec fn bool_text(b: bool) -> Seq<char> {
    if b {
        true_text()
    } else {
        false_text()
    }
}

pub open spec fn table_line() -> Seq<char> {
    seq!['['] + table_key() + seq![']']
}

/// The lines that describe `c`: top-level keys first, then the
/// `[line_counting]` table; absent optional values get no line.
pub open spec fn config_lines(c: ConfigValue) -> Seq<Seq<char>> {
    let a = seq![
        pair_line(roots_key(), list_text(c.0)),
        pair_line(globs_key(), list_text(c.3)),
        pair_line(follow_key(), bool_text(c.4)),
    ];
    let b = match c.1 {
        Some(s) => a.push(pair_line(snapshot_key(), quoted(s))),
        None => a,
    };
    let d = match c.2 {
        Some(s) => b.push(pair_line(report_key(), quoted(s))),
        None => b,
    };
    let e = d.push(table_line()).push(pair_line(extensions_key(), list_text(c.5)));
    match c.6 {
        Some(n) => e.push(pair_line(max_size_key(), decimal(n as nat))),
        None => e,
    }
}

/// The lines `ls`, each followed by a newline.
pub open spec fn joined(ls: Seq<Seq<char>>) -> Seq<char>
    decreases ls.len(),
{
    if ls.len() == 0 {
        Seq::empty()
    } else {
        joined(ls.drop_last()) + ls.last() + seq!['\n']
    }
}

/// The text that describes `c`.
pub open spec fn config_text(c: ConfigValue) -> Seq<char> {
    joined(config_lines(c))
}

/// Read the lines `ls` one after the other, starting in state `st`.
pub open spec fn apply_each(ls: Seq<Seq<char>>, st: ParseState) -> Option<ParseState>
    decreases ls.len(),
{
    if ls.len() == 0 {
        Some(st)
    } else {
        match apply_each(ls.drop_last(), st) {
            Some(s) => apply_line(s, ls.last()),
            None => None,
        }
    }
}

pub proof fn lemma_ltrim_len(s: Seq<char>)
    ensures
        ltrim(s).len() <= s.len(),
        s.len() > 0 && !is_blank(s[0]) ==> ltrim(s) == s,
    decreases s.len(),
{
    if s.len() > 0 && is_blank(s[0]) {
        lemma_ltrim_len(s.drop_first());
    }
}

pub proof fn lemma_string_body_len(t: Seq<char>)
    ensures
        string_body(t) matches Some((v, k)) ==> 1 <= k <= t.len(),
    decreases t.len(),
{
    if t.len() > 0 && t[0] != '"' {
        if t[0] == '\\' {
            if t.len() >= 2 {
                lemma_string_body_len(t.skip(2));
            }
        } else {
            lemma_string_body_len(t.drop_first());
        }
    }
}


pub proof fn lemma_index_of_concat(a: Seq<char>, b: Seq<char>, c: char)
    requires
        forall|i: int| 0 <= i < a.len() ==> a[i] != c,
    ensures
        index_of(a + b, c) == a.len() + index_of(b, c),
    decreases a.len(),
{
    if a.len() > 0 {
        assert((a + b).drop_first() =~= a.drop_first() + b);
        lemma_index_of_concat(a.drop_first(), b, c);
    } else {
        assert(a + b =~= b);
    }
}

proof fn lemma_escaped_concat(a: Seq<char>, b: Seq<char>)
    ensures
        escaped(a + b) == escaped(a) + escaped(b),
    decreases a.len(),
{
    if a.len() == 0 {
        assert(a + b =~= b);
        assert(escaped(a) + escaped(b) =~= escaped(b));
    } else {
        assert((a + b).drop_first() =~= a.drop_first() + b);
        lemma_escaped_concat(a.drop_first(), b);
        assert(escaped(a + b) =~= escaped(a) + escaped(b));
    }
}

proof fn lemma_escaped_one(c: char)
    ensures
        escaped(seq![c]) == escaped_char(c),
{
    assert(seq![c].drop_first() =~= Seq::<char>::empty());
    assert(escaped(seq![c]) =~= escaped_char(c) + escaped(Seq::<char>::empty()));
}

/// Reading an escaped string back, up to its closing quote, gives the
/// string.
proof fn lemma_string_body_escaped(s: Seq<char>, rest: Seq<char>)
    ensures
        string_body(escaped(s) + seq!['"'] + rest) == Some((s, (escaped(s).len() + 1) as nat)),
    decreases s.len(),
{
    let t = escaped(s) + seq!['"'] + rest;
    if s.len() == 0 {
        assert(escaped(s) =~= Seq::<char>::empty());
        assert(t[0] == '"');
    } else {
        let c = s[0];
        let tail = s.drop_first();
        lemma_string_body_escaped(tail, rest);
        let inner = escaped(tail) + seq!['"'] + rest;
        assert(t =~= escaped_char(c) + inner);
        if c == '"' || c == '\\' || c == '\n' || c == '\r' || c == '\t' {
            assert(t[0] == '\\');
            assert(unescaped_char(t[1]) == Some(c));
            assert(t.skip(2) =~= inner);
        } else {
            assert(t[0] == c);
            assert(t.drop_first() =~= inner);
        }
        assert(seq![c] + tail =~= s);
    }
}

pub proof fn lemma_string_value_quoted(s: Seq<char>)
    ensures
        string_value(quoted(s)) == Some(s),
{
    let q = quoted(s);
    lemma_string_body_escaped(s, Seq::empty());
    assert(q.drop_first() =~= escaped(s) + seq!['"'] + Seq::<char>::empty());
}

proof fn lemma_list_rest_text(ss: Seq<Seq<char>>)
    ensures
        list_rest(list_items_text(ss) + seq![']']) == Some(ss),
    decreases ss.len(),
{
    let t = list_items_text(ss) + seq![']'];
    lemma_ltrim_len(t);
    if ss.len() == 0 {
        assert(t =~= seq![']']);
        assert(ss =~= Seq::<Seq<char>>::empty());
    } else {
        let s0 = ss[0];
        let e = escaped(s0);
        let after = if ss.len() == 1 {
            seq![']']
        } else {
            seq![',', ' '] + list_items_text(ss.drop_first()) + seq![']']
        };
        assert(t =~= seq!['"'] + e + seq!['"'] + after);
        assert(t[0] == '"');
        assert(ltrim(t) == t);
        lemma_string_body_escaped(s0, after);
        assert(t.drop_first() =~= e + seq!['"'] + after);
        assert(t.skip(e.len() + 2int) =~= after);
        lemma_ltrim_len(after);
        assert(ltrim(after) == after);
        if ss.len() == 1 {
            assert(ss =~= seq![s0]);
        } else {
            let x = list_items_text(ss.drop_first()) + seq![']'];
            lemma_list_rest_text(ss.drop_first());
            assert(after.drop_first() =~= seq![' '] + x);
            let y = seq![' '] + x;
            assert(y.drop_first() =~= x);
            assert(ltrim(y) == ltrim(x));
            if ss.len() - 1 == 1 {
                assert(x =~= quoted(ss.drop_first()[0]) + seq![']']);
            } else {
                assert(x =~= quoted(ss.drop_first()[0]) + seq![',', ' '] + list_items_text(
                    ss.drop_first().drop_first(),
                ) + seq![']']);
            }
            assert(x[0] == '"');
            lemma_ltrim_len(x);
            assert(list_rest(y) == list_rest(x));
            assert(seq![s0] + ss.drop_first() =~= ss);
        }
    }
}

pub proof fn lemma_list_value_text(ss: Seq<Seq<char>>)
    ensures
        list_value(list_text(ss)) == Some(ss),
{
    lemma_list_rest_text(ss);
    assert(list_text(ss).drop_first() =~= list_items_text(ss) + seq![']']);
}

proof fn lemma_digits_push(s: Seq<char>, c: char, acc: nat)
    ensures
        digits_from(s.push(c), acc) == digits_from(s, acc) * 10 + ((c as int - 48) as nat),
    decreases s.len(),
{
    let d = (c as int - 48) as nat;
    if s.len() == 0 {
        assert(s.push(c).drop_first() =~= Seq::<char>::empty());
        assert(s.push(c)[0] == c);
        assert(digits_from(s.push(c).drop_first(), acc * 10 + d) == acc * 10 + d);
        assert(digits_from(s, acc) == acc);
    } else {
        let acc2 = acc * 10 + ((s[0] as int - 48) as nat);
        assert(s.push(c).drop_first() =~= s.drop_first().push(c));
        assert(s.push(c)[0] == s[0]);
        lemma_digits_push(s.drop_first(), c, acc2);
        assert(digits_from(s.push(c), acc) == digits_from(s.drop_first().push(c), acc2));
        assert(digits_from(s, acc) == digits_from(s.drop_first(), acc2));
    }
}

proof fn lemma_decimal_digits(n: nat)
    ensures
        digits_from(decimal(n), 0) == n,
        decimal(n).len() > 0,
        forall|i: int| 0 <= i < decimal(n).len() ==> is_digit(#[trigger] decimal(n)[i]),
    decreases n,
{
    if n < 10 {
        let c = (48 + n) as char;
        assert(c as int == 48 + n);
        assert(seq![c].drop_first() =~= Seq::<char>::empty());
        assert(digits_from(seq![c].drop_first(), 0 * 10 + ((c as int - 48) as nat)) == n);
    } else {
        lemma_decimal_digits(n / 10);
        let c = (48 + n % 10) as char;
        assert(c as int == 48 + n % 10);
        lemma_digits_push(decimal(n / 10), c, 0);
        assert((n / 10) * 10 + n % 10 == n) by (nonlinear_arith);
    }
}

pub proof fn lemma_u64_value_decimal(n: u64)
    ensures
        u64_value(decimal(n as nat)) == Some(n),
{
    lemma_decimal_digits(n as nat);
}

proof fn lemma_trim_fixed(s: Seq<char>)
    requires
        s.len() > 0,
        !is_blank(s[0]),
        !is_blank(s.last()),
    ensures
        trim(s) == s,
{
    lemma_ltrim_len(s);
}

/// A key that reads back as itself in a `key = value` line.
pub open spec fn plain_key(key: Seq<char>) -> bool {
    &&& key.len() > 0
    &&& !is_blank(key[0])
    &&& !is_blank(key.last())
    &&& key[0] != '#'
    &&& key[0] != '['
    &&& forall|i: int| 0 <= i < key.len() ==> key[i] != '=' && key[i] != '\n'
}

/// A value text that reads back as itself in a `key = value` line.
pub open spec fn plain_value(v: Seq<char>) -> bool {
    &&& v.len() > 0
    &&& !is_blank(v[0])
    &&& !is_blank(v.last())
    &&& forall|i: int| 0 <= i < v.len() ==> v[i] != '\n'
}

proof fn lemma_pair_line(st: ParseState, key: Seq<char>, v: Seq<char>)
    requires
        plain_key(key),
        plain_value(v),
    ensures
        apply_line(st, pair_line(key, v)) == match apply_pair(st.0, st.1, key, v) {
            Some(c) => Some((st.0, c)),
            None => None,
        },
        forall|i: int| 0 <= i < pair_line(key, v).len() ==> pair_line(key, v)[i] != '\n',
{
    let line = pair_line(key, v);
    let sep = seq![' ', '=', ' '];
    assert(line.last() == v.last());
    assert(line[0] == key[0]);
    lemma_trim_fixed(line);
    lemma_index_of_concat(key, sep + v, '=');
    assert(line =~= key + (sep + v));
    assert((sep + v)[0] == ' ');
    assert((sep + v).drop_first() =~= seq!['=', ' '] + v);
    assert((seq!['=', ' '] + v)[0] == '=');
    assert(index_of(seq!['=', ' '] + v, '=') == 0);
    assert(index_of(sep + v, '=') == 1);
    let k = key.len() as int + 1;
    assert(line.take(k) =~= key.push(' '));
    assert(key.push(' ').drop_last() =~= key);
    lemma_ltrim_len(key.push(' '));
    assert(ltrim(key.push(' ')) == key.push(' '));
    assert(rtrim(key.push(' ')) == rtrim(key));
    assert(trim(line.take(k)) == key);
    assert(line.skip(k + 1) =~= seq![' '] + v);
    assert((seq![' '] + v).drop_first() =~= v);
    lemma_ltrim_len(v);
    assert(ltrim(seq![' '] + v) == v);
    assert(trim(line.skip(k + 1)) == v);
    assert forall|i: int| 0 <= i < line.len() implies line[i] != '\n' by {
        if i < key.len() {
        } else if i < key.len() + 3 {
        } else {
            assert(line[i] == v[i - key.len() - 3]);
        }
    }
}


proof fn lemma_parse_peel(l: Seq<char>, rest: Seq<char>, st: ParseState)
    requires
        forall|i: int| 0 <= i < l.len() ==> l[i] != '\n',
    ensures
        parse_lines(l + seq!['\n'] + rest, st) == match apply_line(st, l) {
            Some(s2) => parse_lines(rest, s2),
            None => None,
        },
{
    let t = l + seq!['\n'] + rest;
    assert(t =~= l + (seq!['\n'] + rest));
    lemma_index_of_concat(l, seq!['\n'] + rest, '\n');
    assert((seq!['\n'] + rest)[0] == '\n');
    assert(index_of(t, '\n') == l.len());
    assert(t.take(l.len() as int) =~= l);
    assert(t.skip(l.len() + 1int) =~= rest);
}

/// Reading the lines `pre` and then `rest` is reading `pre` line by line,
/// then `rest`.
proof fn lemma_parse_prefix(pre: Seq<Seq<char>>, rest: Seq<char>, st: ParseState)
    requires
        forall|j: int, i: int| 0 <= j < pre.len() && 0 <= i < pre[j].len() ==> #[trigger] pre[j][i] != '\n',
    ensures
        parse_lines(joined(pre) + rest, st) == match apply_each(pre, st) {
            Some(s) => parse_lines(rest, s),
            None => None,
        },
    decreases pre.len(),
{
    if pre.len() == 0 {
        assert(joined(pre) + rest =~= rest);
    } else {
        let init = pre.drop_last();
        let l = pre.last();
        let rest2 = l + seq!['\n'] + rest;
        assert(joined(pre) + rest =~= joined(init) + rest2);
        assert forall|j: int, i: int| 0 <= j < init.len() && 0 <= i < init[j].len() implies #[trigger] init[j][i]
            != '\n' by {
            assert(init[j] == pre[j]);
        }
        lemma_parse_prefix(init, rest2, st);
        assert forall|i: int| 0 <= i < l.len() implies l[i] != '\n' by {
            assert(pre[pre.len() - 1][i] != '\n');
        }
        match apply_each(init, st) {
            Some(s1) => {
                lemma_parse_peel(l, rest, s1);
            },
            None => {},
        }
    }
}

proof fn lemma_escaped_no_newline(s: Seq<char>)
    ensures
        forall|i: int| 0 <= i < escaped(s).len() ==> escaped(s)[i] != '\n',
    decreases s.len(),
{
    if s.len() > 0 {
        lemma_escaped_no_newline(s.drop_first());
        let a = escaped_char(s[0]);
        let b = escaped(s.drop_first());
        assert forall|i: int| 0 <= i < escaped(s).len() implies escaped(s)[i] != '\n' by {
            if i < a.len() {
            } else {
                assert(escaped(s)[i] == b[i - a.len()]);
            }
        }
    }
}

proof fn lemma_quoted_plain(s: Seq<char>)
    ensures
        plain_value(quoted(s)),
        quoted(s)[0] == '"',
{
    lemma_escaped_no_newline(s);
    let q = quoted(s);
    assert forall|i: int| 0 <= i < q.len() implies q[i] != '\n' by {
        if 0 < i < q.len() - 1 {
            assert(q[i] == escaped(s)[i - 1]);
        }
    }
}

proof fn lemma_list_items_no_newline(ss: Seq<Seq<char>>)
    ensures
        forall|i: int| 0 <= i < list_items_text(ss).len() ==> list_items_text(ss)[i] != '\n',
    decreases ss.len(),
{
    if ss.len() > 0 {
        lemma_quoted_plain(ss[0]);
        let q = quoted(ss[0]);
        if ss.len() > 1 {
            lemma_list_items_no_newline(ss.drop_first());
            let r = list_items_text(ss.drop_first());
            let t = list_items_text(ss);
            assert forall|i: int| 0 <= i < t.len() implies t[i] != '\n' by {
                if i < q.len() {
                    assert(t[i] == q[i]);
                } else if i < q.len() + 2 {
                } else {
                    assert(t[i] == r[i - q.len() - 2]);
                }
            }
        }
    }
}

proof fn lemma_list_plain(ss: Seq<Seq<char>>)
    ensures
        plain_value(list_text(ss)),
{
    lemma_list_items_no_newline(ss);
    let t = list_text(ss);
    assert forall|i: int| 0 <= i < t.len() implies t[i] != '\n' by {
        if 0 < i < t.len() - 1 {
            assert(t[i] == list_items_text(ss)[i - 1]);
        }
    }
}

proof fn lemma_keys_plain()
    ensures
        plain_key(roots_key()),
        plain_key(snapshot_key()),
        plain_key(report_key()),
        plain_key(globs_key()),
        plain_key(follow_key()),
        plain_key(extensions_key()),
        plain_key(max_size_key()),
        roots_key().len() == 13,
        snapshot_key().len() == 11,
        report_key().len() == 10,
        globs_key().len() == 12,
        follow_key().len() == 15,
        extensions_key().len() == 10,
        max_size_key().len() == 14,
        table_key() =~= seq!['l', 'i', 'n', 'e', '_', 'c', 'o', 'u', 'n', 't', 'i', 'n', 'g'],
{
    reveal_strlit("default_roots");
    reveal_strlit("snapshot_db");
    reveal_strlit("report_dir");
    reveal_strlit("ignore_globs");
    reveal_strlit("follow_symlinks");
    reveal_strlit("extensions");
    reveal_strlit("max_size_bytes");
    reveal_strlit("line_counting");
}

proof fn lemma_table_line(st: ParseState)
    ensures
        apply_line(st, table_line()) == Some((true, st.1)),
        forall|i: int| 0 <= i < table_line().len() ==> table_line()[i] != '\n',
{
    lemma_keys_plain();
    let l = table_line();
    assert(l =~= seq!['[', 'l', 'i', 'n', 'e', '_', 'c', 'o', 'u', 'n', 't', 'i', 'n', 'g', ']']);
    lemma_trim_fixed(l);
    assert(l.subrange(1, l.len() - 1) =~= table_key());
    lemma_trim_fixed(table_key());
}

proof fn lemma_line_list(sec: bool, cfg: ConfigValue, key: Seq<char>, l: Seq<Seq<char>>)
    requires
        key == roots_key() || key == globs_key() || key == extensions_key(),
        sec == (key == extensions_key()),
    ensures
        apply_line((sec, cfg), pair_line(key, list_text(l))) == Some(
            (
                sec,
                if key == roots_key() {
                    (l, cfg.1, cfg.2, cfg.3, cfg.4, cfg.5, cfg.6)
                } else if key == globs_key() {
                    (cfg.0, cfg.1, cfg.2, l, cfg.4, cfg.5, cfg.6)
                } else {
                    (cfg.0, cfg.1, cfg.2, cfg.3, cfg.4, l, cfg.6)
                },
            ),
        ),
        forall|i: int| 0 <= i < pair_line(key, list_text(l)).len() ==> pair_line(key, list_text(l))[i] != '\n',
{
    lemma_keys_plain();
    lemma_list_plain(l);
    lemma_list_value_text(l);
    lemma_pair_line((sec, cfg), key, list_text(l));
}

proof fn lemma_line_string(cfg: ConfigValue, key: Seq<char>, x: Seq<char>)
    requires
        key == snapshot_key() || key == report_key(),
    ensures
        apply_line((false, cfg), pair_line(key, quoted(x))) == Some(
            (
                false,
                if key == snapshot_key() {
                    (cfg.0, Some(x), cfg.2, cfg.3, cfg.4, cfg.5, cfg.6)
                } else {
                    (cfg.0, cfg.1, Some(x), cfg.3, cfg.4, cfg.5, cfg.6)
                },
            ),
        ),
        forall|i: int| 0 <= i < pair_line(key, quoted(x)).len() ==> pair_line(key, quoted(x))[i] != '\n',
{
    lemma_keys_plain();
    lemma_quoted_plain(x);
    lemma_string_value_quoted(x);
    lemma_pair_line((false, cfg), key, quoted(x));
}

proof fn lemma_line_follow(cfg: ConfigValue, b: bool)
    ensures
        apply_line((false, cfg), pair_line(follow_key(), bool_text(b))) == Some(
            (false, (cfg.0, cfg.1, cfg.2, cfg.3, b, cfg.5, cfg.6)),
        ),
        forall|i: int| 0 <= i < pair_line(follow_key(), bool_text(b)).len() ==> pair_line(follow_key(), bool_text(b))[i] != '\n',
{
    lemma_keys_plain();
    let bt = bool_text(b);
    assert(plain_value(bt));
    assert(bool_value(bt) == Some(b));
    lemma_pair_line((false, cfg), follow_key(), bt);
}

proof fn lemma_line_max(cfg: ConfigValue, n: u64)
    ensures
        apply_line((true, cfg), pair_line(max_size_key(), decimal(n as nat))) == Some(
            (true, (cfg.0, cfg.1, cfg.2, cfg.3, cfg.4, cfg.5, Some(n))),
        ),
        forall|i: int| 0 <= i < pair_line(max_size_key(), decimal(n as nat)).len() ==> pair_line(max_size_key(), decimal(n as nat))[i] != '\n',
{
    lemma_keys_plain();
    lemma_u64_value_decimal(n);
    lemma_decimal_digits(n as nat);
    let dt = decimal(n as nat);
    assert(is_digit(dt[0]));
    assert(is_digit(dt[dt.len() - 1]));
    assert forall|i: int| 0 <= i < dt.len() implies dt[i] != '\n' by {
        assert(is_digit(dt[i]));
    }
    lemma_pair_line((true, cfg), max_size_key(), dt);
}

proof fn lemma_apply_push(ls: Seq<Seq<char>>, l: Seq<char>, st: ParseState, mid: ParseState)
    requires
        apply_each(ls, st) == Some(mid),
    ensures
        apply_each(ls.push(l), st) == apply_line(mid, l),
{
    assert(ls.push(l).drop_last() =~= ls);
}

proof fn lemma_no_newline_push(ls: Seq<Seq<char>>, l: Seq<char>)
    requires
        forall|j: int, i: int| 0 <= j < ls.len() && 0 <= i < ls[j].len() ==> #[trigger] ls[j][i] != '\n',
        forall|i: int| 0 <= i < l.len() ==> l[i] != '\n',
    ensures
        forall|j: int, i: int| 0 <= j < ls.push(l).len() && 0 <= i < ls.push(l)[j].len() ==> #[trigger] ls.push(l)[j][i] != '\n',
{
    assert forall|j: int, i: int| 0 <= j < ls.push(l).len() && 0 <= i < ls.push(l)[j].len() implies #[trigger] ls.push(l)[j][i] != '\n' by {
        if j < ls.len() {
            assert(ls.push(l)[j] == ls[j]);
        }
    }
}

/// What a saved configuration text reads back as is the configuration
/// that was saved.
pub proof fn lemma_parse_config_text(c: ConfigValue)
    ensures
        parse_config(config_text(c)) == Some(c),
{
    let ls = config_lines(c);
    let s0: ParseState = (false, default_value());
    let e0 = Seq::<Seq<char>>::empty();
    let l1 = pair_line(roots_key(), list_text(c.0));
    let l2 = pair_line(globs_key(), list_text(c.3));
    let l3 = pair_line(follow_key(), bool_text(c.4));
    lemma_keys_plain();
    lemma_line_list(false, default_value(), roots_key(), c.0);
    let s1: ParseState = (false, (c.0, None, None, Seq::empty(), false, Seq::empty(), None));
    lemma_apply_push(e0, l1, s0, s0);
    lemma_no_newline_push(e0, l1);
    lemma_line_list(false, s1.1, globs_key(), c.3);
    let s2: ParseState = (false, (c.0, None, None, c.3, false, Seq::empty(), None));
    lemma_apply_push(e0.push(l1), l2, s0, s1);
    lemma_no_newline_push(e0.push(l1), l2);
    lemma_line_follow(s2.1, c.4);
    let s3: ParseState = (false, (c.0, None, None, c.3, c.4, Seq::empty(), None));
    lemma_apply_push(e0.push(l1).push(l2), l3, s0, s2);
    lemma_no_newline_push(e0.push(l1).push(l2), l3);
    let a = seq![l1, l2, l3];
    assert(a =~= e0.push(l1).push(l2).push(l3));
    let b = match c.1 {
        Some(x) => a.push(pair_line(snapshot_key(), quoted(x))),
        None => a,
    };
    let s4: ParseState = (false, (c.0, c.1, None, c.3, c.4, Seq::empty(), None));
    match c.1 {
        Some(x) => {
            lemma_line_string(s3.1, snapshot_key(), x);
            lemma_apply_push(a, pair_line(snapshot_key(), quoted(x)), s0, s3);
            lemma_no_newline_push(a, pair_line(snapshot_key(), quoted(x)));
        },
        None => {},
    }
    let d = match c.2 {
        Some(x) => b.push(pair_line(report_key(), quoted(x))),
        None => b,
    };
    let s5: ParseState = (false, (c.0, c.1, c.2, c.3, c.4, Seq::empty(), None));
    match c.2 {
        Some(x) => {
            lemma_line_string(s4.1, report_key(), x);
            lemma_apply_push(b, pair_line(report_key(), quoted(x)), s0, s4);
            lemma_no_newline_push(b, pair_line(report_key(), quoted(x)));
        },
        None => {},
    }
    let s6: ParseState = (true, s5.1);
    lemma_table_line(s5);
    lemma_apply_push(d, table_line(), s0, s5);
    lemma_no_newline_push(d, table_line());
    let d1 = d.push(table_line());
    let l7 = pair_line(extensions_key(), list_text(c.5));
    lemma_line_list(true, s6.1, extensions_key(), c.5);
    lemma_apply_push(d1, l7, s0, s6);
    lemma_no_newline_push(d1, l7);
    let e = d1.push(l7);
    let s7: ParseState = (true, (c.0, c.1, c.2, c.3, c.4, c.5, None));
    let s8: ParseState = (true, c);
    match c.6 {
        Some(n) => {
            lemma_line_max(s7.1, n);
            lemma_apply_push(e, pair_line(max_size_key(), decimal(n as nat)), s0, s7);
            lemma_no_newline_push(e, pair_line(max_size_key(), decimal(n as nat)));
        },
        None => {},
    }
    assert(apply_each(ls, s0) == Some(s8));
    lemma_parse_prefix(ls, Seq::empty(), s0);
    assert(joined(ls) + Seq::<char>::empty() =~= joined(ls));
    assert(parse_lines(Seq::<char>::empty(), s8) == Some(s8));
}


/// `r` with the text `p` put before its string and `n` added to its count.
pub open spec fn with_prefix(p: Seq<char>, n: nat, r: Option<(Seq<char>, nat)>) -> Option<(Seq<char>, nat)> {
    match r {
        Some((v, k)) => Some((p + v, k + n)),
        None => None,
    }
}

/// `r` with the strings `p` put before its own.
pub open spec fn with_items(p: Seq<Seq<char>>, r: Option<Seq<Seq<char>>>) -> Option<Seq<Seq<char>>> {
    match r {
        Some(l) => Some(p + l),
        None => None,
    }
}

/// The characters of `s`.
pub(crate) fn chars_of(s: &str) -> (v: Vec<char>)
    ensures
        v@ == s@,
{
    let n = s.unicode_len();
    let mut v: Vec<char> = Vec::new();
    let mut i: usize = 0;
    while i < n
        invariant
            n == s@.len(),
            i <= n,
            v@ == s@.take(i as int),
        decreases n - i,
    {
        v.push(s.get_char(i));
        i = i + 1;
        assert(v@ =~= s@.take(i as int));
    }
    assert(s@.take(n as int) =~= s@);
    v
}

fn is_blank_exec(c: char) -> (r: bool)
    ensures
        r == is_blank(c),
{
    c == ' ' || c == '\t' || c == '\r'
}

/// The first position in `lo..hi` after the leading blanks.
fn skip_blanks(t: &Vec<char>, lo: usize, hi: usize) -> (r: usize)
    requires
        lo <= hi <= t@.len(),
    ensures
        lo <= r <= hi,
        t@.subrange(r as int, hi as int) == ltrim(t@.subrange(lo as int, hi as int)),
{
    let mut i = lo;
    while i < hi && is_blank_exec(t[i])
        invariant
            lo <= i <= hi <= t@.len(),
            ltrim(t@.subrange(lo as int, hi as int)) == ltrim(t@.subrange(i as int, hi as int)),
        decreases hi - i,
    {
        assert(t@.subrange(i as int, hi as int).drop_first() =~= t@.subrange(i + 1, hi as int));
        i = i + 1;
    }
    if i < hi {
        assert(t@.subrange(i as int, hi as int)[0] == t@[i as int]);
    } else {
        assert(t@.subrange(i as int, hi as int).len() == 0);
    }
    i
}

/// The end of `lo..hi` without its trailing blanks.
fn drop_blanks_end(t: &Vec<char>, lo: usize, hi: usize) -> (r: usize)
    requires
        lo <= hi <= t@.len(),
    ensures
        lo <= r <= hi,
        t@.subrange(lo as int, r as int) == rtrim(t@.subrange(lo as int, hi as int)),
{
    let mut j = hi;
    while j > lo && is_blank_exec(t[j - 1])
        invariant
            lo <= j <= hi <= t@.len(),
            rtrim(t@.subrange(lo as int, hi as int)) == rtrim(t@.subrange(lo as int, j as int)),
        decreases j - lo,
    {
        assert(t@.subrange(lo as int, j as int).drop_last() =~= t@.subrange(lo as int, j - 1));
        j = j - 1;
    }
    if j > lo {
        assert(t@.subrange(lo as int, j as int).last() == t@[j - 1]);
    } else {
        assert(t@.subrange(lo as int, j as int).len() == 0);
    }
    j
}

/// The position of the first `c` in `lo..hi`, or `hi`.
pub(crate) fn find_char(t: &Vec<char>, lo: usize, hi: usize, c: char) -> (r: usize)
    requires
        lo <= hi <= t@.len(),
    ensures
        lo <= r <= hi,
        r - lo == index_of(t@.subrange(lo as int, hi as int), c),
{
    let mut i = lo;
    while i < hi && t[i] != c
        invariant
            lo <= i <= hi <= t@.len(),
            index_of(t@.subrange(lo as int, hi as int), c) == (i - lo) + index_of(t@.subrange(i as int, hi as int), c),
        decreases hi - i,
    {
        assert(t@.subrange(i as int, hi as int).drop_first() =~= t@.subrange(i + 1, hi as int));
        assert(t@.subrange(i as int, hi as int)[0] == t@[i as int]);
        i = i + 1;
    }
    if i < hi {
        assert(t@.subrange(i as int, hi as int)[0] == t@[i as int]);
    }
    i
}

/// `lo..hi` holds exactly the characters of `s`.
pub(crate) fn range_is(t: &Vec<char>, lo: usize, hi: usize, s: &str) -> (r: bool)
    requires
        lo <= hi <= t@.len(),
    ensures
        r == (t@.subrange(lo as int, hi as int) == s@),
{
    let n = s.unicode_len();
    if hi - lo != n {
        return false;
    }
    let mut i: usize = 0;
    while i < n
        invariant
            n == s@.len(),
            hi - lo == n,
            lo <= hi <= t@.len(),
            i <= n,
            forall|j: int| 0 <= j < i ==> t@[lo + j] == s@[j],
        decreases n - i,
    {
        if t[lo + i] != s.get_char(i) {
            assert(t@.subrange(lo as int, hi as int)[i as int] != s@[i as int]);
            return false;
        }
        i = i + 1;
    }
    assert(t@.subrange(lo as int, hi as int) =~= s@);
    true
}

fn unescaped_exec(c: char) -> (r: Option<char>)
    ensures
        r == unescaped_char(c),
{
    if c == '"' {
        Some('"')
    } else if c == '\\' {
        Some('\\')
    } else if c == 'n' {
        Some('\n')
    } else if c == 'r' {
        Some('\r')
    } else if c == 't' {
        Some('\t')
    } else {
        None
    }
}

/// Read the rest of a basic string from `lo`, just after its opening quote.
fn read_string_body(t: &Vec<char>, lo: usize, hi: usize) -> (r: Option<(String, usize)>)
    requires
        lo <= hi <= t@.len(),
    ensures
        match string_body(t@.subrange(lo as int, hi as int)) {
            None => r is None,
            Some((v, k)) => r matches Some((s, m)) && s@ == v && m == k,
        },
{
    let mut out = String::new();
    let mut i = lo;
    proof {
        assert(out@ + Seq::<char>::empty() =~= out@);
        assert(with_prefix(Seq::empty(), 0, string_body(t@.subrange(lo as int, hi as int))) == string_body(
            t@.subrange(lo as int, hi as int),
        )) by {
            match string_body(t@.subrange(lo as int, hi as int)) {
                Some((v, k)) => {
                    assert(Seq::<char>::empty() + v =~= v);
                },
                None => {},
            }
        }
    }
    while i < hi
        invariant
            lo <= i <= hi <= t@.len(),
            string_body(t@.subrange(lo as int, hi as int)) == with_prefix(
                out@,
                (i - lo) as nat,
                string_body(t@.subrange(i as int, hi as int)),
            ),
        decreases hi - i,
    {
        let sub = Ghost(t@.subrange(i as int, hi as int));
        assert(sub@[0] == t@[i as int]);
        let c = t[i];
        if c == '"' {
            assert(string_body(sub@) == Some((Seq::<char>::empty(), 1nat)));
            assert(out@ + Seq::<char>::empty() =~= out@);
            return Some((out, i - lo + 1));
        } else if c == '\\' {
            if i + 1 >= hi {
                return None;
            }
            assert(sub@[1] == t@[i + 1]);
            match unescaped_exec(t[i + 1]) {
                None => {
                    return None;
                },
                Some(d) => {
                    let ghost before = out@;
                    assert(sub@.skip(2) =~= t@.subrange(i + 2, hi as int));
                    out.push(d);
                    proof {
                        match string_body(t@.subrange(i + 2, hi as int)) {
                            Some((v, k)) => {
                                assert(before + (seq![d] + v) =~= out@ + v);
                            },
                            None => {},
                        }
                    }
                    i = i + 2;
                },
            }
        } else {
            let ghost before = out@;
            assert(sub@.drop_first() =~= t@.subrange(i + 1, hi as int));
            out.push(c);
            proof {
                match string_body(t@.subrange(i + 1, hi as int)) {
                    Some((v, k)) => {
                        assert(before + (seq![c] + v) =~= out@ + v);
                    },
                    None => {},
                }
            }
            i = i + 1;
        }
    }
    assert(t@.subrange(i as int, hi as int).len() == 0);
    None
}

/// The string that `lo..hi` writes, when it is exactly one basic string.
fn read_string(t: &Vec<char>, lo: usize, hi: usize) -> (r: Option<String>)
    requires
        lo <= hi <= t@.len(),
    ensures
        match string_value(t@.subrange(lo as int, hi as int)) {
            None => r is None,
            Some(v) => r matches Some(s) && s@ == v,
        },
{
    if lo < hi && t[lo] == '"' {
        assert(t@.subrange(lo as int, hi as int).drop_first() =~= t@.subrange(lo + 1, hi as int));
        match read_string_body(t, lo + 1, hi) {
            Some((s, k)) => {
                if k == hi - lo - 1 {
                    Some(s)
                } else {
                    None
                }
            },
            None => None,
        }
    } else {
        None
    }
}

/// Read the rest of an array of strings from `lo`, after its `[`.
fn read_list_rest(t: &Vec<char>, lo: usize, hi: usize) -> (r: Option<Vec<String>>)
    requires
        lo <= hi <= t@.len(),
    ensures
        match list_rest(t@.subrange(lo as int, hi as int)) {
            None => r is None,
            Some(l) => r matches Some(v) && views(v@) == l,
        },
{
    let mut acc: Vec<String> = Vec::new();
    let mut i = lo;
    proof {
        match list_rest(t@.subrange(lo as int, hi as int)) {
            Some(l) => {
                assert(views(acc@) + l =~= l);
            },
            None => {},
        }
    }
    loop
        invariant
            lo <= i <= hi <= t@.len(),
            list_rest(t@.subrange(lo as int, hi as int)) == with_items(
                views(acc@),
                list_rest(t@.subrange(i as int, hi as int)),
            ),
        decreases hi - i,
    {
        let ghost tt = t@.subrange(i as int, hi as int);
        let a = skip_blanks(t, i, hi);
        let ghost u = t@.subrange(a as int, hi as int);
        assert(u == ltrim(tt));
        if a == hi {
            return None;
        }
        assert(u[0] == t@[a as int]);
        if t[a] == ']' {
            if a + 1 == hi {
                assert(views(acc@) + Seq::<Seq<char>>::empty() =~= views(acc@));
                return Some(acc);
            }
            return None;
        }
        if t[a] != '"' {
            return None;
        }
        assert(u.drop_first() =~= t@.subrange(a + 1, hi as int));
        proof {
            lemma_string_body_len(u.drop_first());
        }
        match read_string_body(t, a + 1, hi) {
            None => {
                return None;
            },
            Some((s, k)) => {
                let b = skip_blanks(t, a + 1 + k, hi);
                assert(u.skip(k + 1int) =~= t@.subrange(a + 1 + k, hi as int));
                let ghost w = t@.subrange(b as int, hi as int);
                if b == hi {
                    return None;
                }
                assert(w[0] == t@[b as int]);
                if t[b] == ']' {
                    if b + 1 == hi {
                        let ghost before = views(acc@);
                        acc.push(s);
                        assert(views(acc@) =~= before + seq![s@]);
                        return Some(acc);
                    }
                    return None;
                } else if t[b] == ',' {
                    let ghost before = views(acc@);
                    let ghost sv = s@;
                    assert(w.drop_first() =~= t@.subrange(b + 1, hi as int));
                    acc.push(s);
                    assert(views(acc@) =~= before + seq![sv]);
                    proof {
                        match list_rest(t@.subrange(b + 1, hi as int)) {
                            Some(l) => {
                                assert(before + (seq![sv] + l) =~= views(acc@) + l);
                            },
                            None => {},
                        }
                    }
                    i = b + 1;
                } else {
                    return None;
                }
            },
        }
    }
}

/// The strings that `lo..hi` writes, when it is one array of strings.
fn read_list(t: &Vec<char>, lo: usize, hi: usize) -> (r: Option<Vec<String>>)
    requires
        lo <= hi <= t@.len(),
    ensures
        match list_value(t@.subrange(lo as int, hi as int)) {
            None => r is None,
            Some(l) => r matches Some(v) && views(v@) == l,
        },
{
    if lo < hi && t[lo] == '[' {
        assert(t@.subrange(lo as int, hi as int).drop_first() =~= t@.subrange(lo + 1, hi as int));
        read_list_rest(t, lo + 1, hi)
    } else {
        None
    }
}

proof fn lemma_digits_from_grows(s: Seq<char>, acc: nat)
    ensures
        digits_from(s, acc) >= acc,
    decreases s.len(),
{
    if s.len() > 0 {
        lemma_digits_from_grows(s.drop_first(), acc * 10 + ((s[0] as int - 48) as nat));
    }
}

/// The unsigned integer that `lo..hi` writes in decimal.
fn read_u64(t: &Vec<char>, lo: usize, hi: usize) -> (r: Option<u64>)
    requires
        lo <= hi <= t@.len(),
    ensures
        r == u64_value(t@.subrange(lo as int, hi as int)),
{
    let ghost v = t@.subrange(lo as int, hi as int);
    if lo == hi {
        return None;
    }
    let mut acc: u64 = 0;
    let mut i = lo;
    while i < hi
        invariant
            lo <= i <= hi <= t@.len(),
            v == t@.subrange(lo as int, hi as int),
            forall|j: int| lo <= j < i ==> is_digit(#[trigger] t@[j]),
            digits_from(v, 0) == digits_from(t@.subrange(i as int, hi as int), acc as nat),
        decreases hi - i,
    {
        let c = t[i];
        assert(t@.subrange(i as int, hi as int)[0] == c);
        assert(t@.subrange(i as int, hi as int).drop_first() =~= t@.subrange(i + 1, hi as int));
        if !('0' <= c && c <= '9') {
            assert(!is_digit(v[i - lo]));
            return None;
        }
        let d = (c as u32 - 48) as u64;
        if acc > (u64::MAX - d) / 10 {
            proof {
                assert(acc * 10 + d > u64::MAX) by (nonlinear_arith)
                    requires
                        acc > (u64::MAX - d) / 10,
                        d <= 9,
                ;
                lemma_digits_from_grows(t@.subrange(i + 1, hi as int), (acc * 10 + d) as nat);
            }
            return None;
        }
        assert(acc * 10 + d <= u64::MAX) by (nonlinear_arith)
            requires
                acc <= (u64::MAX - d) / 10,
                d <= 9,
        ;
        acc = acc * 10 + d;
        i = i + 1;
    }
    assert(t@.subrange(i as int, hi as int).len() == 0);
    assert forall|j: int| 0 <= j < v.len() implies is_digit(#[trigger] v[j]) by {
        assert(v[j] == t@[lo + j]);
    }
    Some(acc)
}

/// The boolean that `lo..hi` writes.
fn read_bool(t: &Vec<char>, lo: usize, hi: usize) -> (r: Option<bool>)
    requires
        lo <= hi <= t@.len(),
    ensures
        r == bool_value(t@.subrange(lo as int, hi as int)),
{
    proof {
        reveal_strlit("true");
        reveal_strlit("false");
        assert("true"@ =~= true_text());
        assert("false"@ =~= false_text());
    }
    if range_is(t, lo, hi, "true") {
        Some(true)
    } else if range_is(t, lo, hi, "false") {
        Some(false)
    } else {
        None
    }
}

/// Read the line `lo..hi` of `t` into the parser's state.
fn read_line(t: &Vec<char>, lo: usize, hi: usize, sec: &mut bool, cfg: &mut Config) -> (ok: bool)
    requires
        lo <= hi <= t@.len(),
    ensures
        match apply_line((*old(sec), old(cfg).value()), t@.subrange(lo as int, hi as int)) {
            None => !ok,
            Some(st) => ok && st == (*final(sec), final(cfg).value()),
        },
{
    let ghost raw = t@.subrange(lo as int, hi as int);
    let a = skip_blanks(t, lo, hi);
    let b = drop_blanks_end(t, a, hi);
    let ghost line = t@.subrange(a as int, b as int);
    assert(line == trim(raw));
    if a == b {
        return true;
    }
    assert(line[0] == t@[a as int]);
    if t[a] == '#' {
        return true;
    }
    if t[a] == '[' {
        if b - a >= 2 && t[b - 1] == ']' {
            assert(line.last() == t@[b - 1]);
            let x = skip_blanks(t, a + 1, b - 1);
            let y = drop_blanks_end(t, x, b - 1);
            assert(line.subrange(1, line.len() - 1) =~= t@.subrange(a + 1, b - 1));
            if range_is(t, x, y, "line_counting") {
                *sec = true;
                return true;
            }
            return false;
        }
        proof {
            if line.len() >= 2 {
                assert(line.last() == t@[b - 1]);
            }
        }
        return false;
    }
    let e = find_char(t, a, b, '=');
    if e == b {
        return false;
    }
    let ka = skip_blanks(t, a, e);
    let kb = drop_blanks_end(t, ka, e);
    let va = skip_blanks(t, e + 1, b);
    let vb = drop_blanks_end(t, va, b);
    assert(line.take(e - a) =~= t@.subrange(a as int, e as int));
    assert(line.skip(e - a + 1) =~= t@.subrange(e + 1, b as int));
    let ghost key = t@.subrange(ka as int, kb as int);
    let ghost v = t@.subrange(va as int, vb as int);
    assert(key_value(line) == (key, v));
    let top = !*sec;
    if top && range_is(t, ka, kb, "default_roots") {
        match read_list(t, va, vb) {
            Some(l) => {
                cfg.default_roots = l;
                true
            },
            None => false,
        }
    } else if top && range_is(t, ka, kb, "snapshot_db") {
        match read_string(t, va, vb) {
            Some(x) => {
                cfg.snapshot_db = Some(x);
                true
            },
            None => false,
        }
    } else if top && range_is(t, ka, kb, "report_dir") {
        match read_string(t, va, vb) {
            Some(x) => {
                cfg.report_dir = Some(x);
                true
            },
            None => false,
        }
    } else if top && range_is(t, ka, kb, "ignore_globs") {
        match read_list(t, va, vb) {
            Some(l) => {
                cfg.ignore_globs = l;
                true
            },
            None => false,
        }
    } else if top && range_is(t, ka, kb, "follow_symlinks") {
        match read_bool(t, va, vb) {
            Some(f) => {
                cfg.follow_symlinks = f;
                true
            },
            None => false,
        }
    } else if !top && range_is(t, ka, kb, "extensions") {
        match read_list(t, va, vb) {
            Some(l) => {
                cfg.line_counting.extensions = l;
                true
            },
            None => false,
        }
    } else if !top && range_is(t, ka, kb, "max_size_bytes") {
        match read_u64(t, va, vb) {
            Some(n) => {
                cfg.line_counting.max_size_bytes = Some(n);
                true
            },
            None => false,
        }
    } else {
        false
    }
}

/// Read a configuration text: the default configuration with every key
/// that the text sets replaced by its value; `None` when a line is not
/// understood.
pub fn read_config(text: &str) -> (r: Option<Config>)
    ensures
        match parse_config(text@) {
            None => r is None,
            Some(v) => r matches Some(c) && c.value() == v,
        },
{
    let t = chars_of(text);
    let n = t.len();
    let mut cfg = Config::default();
    let mut sec = false;
    let mut i: usize = 0;
    assert(cfg.value() =~= default_value()) by {
        assert(views(cfg.default_roots@) =~= Seq::<Seq<char>>::empty());
        assert(views(cfg.ignore_globs@) =~= Seq::<Seq<char>>::empty());
        assert(views(cfg.line_counting.extensions@) =~= Seq::<Seq<char>>::empty());
    }
    assert(t@.skip(0) =~= t@);
    loop
        invariant
            n == t@.len(),
            i <= n,
            t@ == text@,
            parse_lines(t@, (false, default_value())) == parse_lines(t@.skip(i as int), (sec, cfg.value())),
        decreases n - i,
    {
        let k = find_char(&t, i, n, '\n');
        let ghost rest = t@.skip(i as int);
        assert(t@.subrange(i as int, n as int) =~= rest);
        assert(rest.take(k - i) =~= t@.subrange(i as int, k as int));
        let ok = read_line(&t, i, k, &mut sec, &mut cfg);
        if !ok {
            return None;
        }
        if k >= n {
            return Some(cfg);
        }
        assert(rest.skip(k - i + 1) =~= t@.skip(k + 1));
        i = k + 1;
    }
}

proof fn lemma_list_items_push(ss: Seq<Seq<char>>, x: Seq<char>)
    ensures
        list_items_text(ss.push(x)) == if ss.len() == 0 {
            quoted(x)
        } else {
            list_items_text(ss) + seq![',', ' '] + quoted(x)
        },
    decreases ss.len(),
{
    if ss.len() == 0 {
        assert(ss.push(x) =~= seq![x]);
    } else if ss.len() == 1 {
        assert(ss.push(x).drop_first() =~= seq![x]);
        assert(ss.push(x)[0] == ss[0]);
        assert(list_items_text(seq![x]) == quoted(x));
        assert(list_items_text(ss.push(x)) == quoted(ss[0]) + seq![',', ' '] + quoted(x));
    } else if ss.len() > 1 {
        assert(ss.push(x)[0] == ss[0]);
        assert(ss.push(x).drop_first() =~= ss.drop_first().push(x));
        lemma_list_items_push(ss.drop_first(), x);
        assert(list_items_text(ss.push(x)) =~= list_items_text(ss) + seq![',', ' '] + quoted(x));
    }
}

/// Append `s` as a basic string literal.
fn push_quoted(out: &mut String, s: &str)
    ensures
        final(out)@ == old(out)@ + quoted(s@),
{
    let ghost start = out@;
    out.push('"');
    let n = s.unicode_len();
    let mut i: usize = 0;
    assert(escaped(s@.take(0)) =~= Seq::<char>::empty());
    while i < n
        invariant
            n == s@.len(),
            i <= n,
            out@ == start + seq!['"'] + escaped(s@.take(i as int)),
        decreases n - i,
    {
        let c = s.get_char(i);
        if c == '"' {
            out.push('\\');
            out.push('"');
        } else if c == '\\' {
            out.push('\\');
            out.push('\\');
        } else if c == '\n' {
            out.push('\\');
            out.push('n');
        } else if c == '\r' {
            out.push('\\');
            out.push('r');
        } else if c == '\t' {
            out.push('\\');
            out.push('t');
        } else {
            out.push(c);
        }
        proof {
            assert(s@.take(i + 1) =~= s@.take(i as int) + seq![c]);
            lemma_escaped_concat(s@.take(i as int), seq![c]);
            lemma_escaped_one(c);
        }
        i = i + 1;
        assert(out@ =~= start + seq!['"'] + escaped(s@.take(i as int)));
    }
    assert(s@.take(n as int) =~= s@);
    out.push('"');
    assert(out@ =~= start + quoted(s@));
}

/// Append the strings of `v` as an array.
fn push_list(out: &mut String, v: &Vec<String>)
    ensures
        final(out)@ == old(out)@ + list_text(views(v@)),
{
    let ghost start = out@;
    out.push('[');
    let mut i: usize = 0;
    assert(views(v@).take(0) =~= Seq::<Seq<char>>::empty());
    while i < v.len()
        invariant
            i <= v@.len(),
            out@ == start + seq!['['] + list_items_text(views(v@).take(i as int)),
        decreases v@.len() - i,
    {
        let ghost before = views(v@).take(i as int);
        if i > 0 {
            out.push(',');
            out.push(' ');
        }
        push_quoted(out, v[i].as_str());
        proof {
            assert(views(v@).take(i + 1) =~= before.push(v@[i as int]@));
            lemma_list_items_push(before, v@[i as int]@);
        }
        i = i + 1;
        assert(out@ =~= start + seq!['['] + list_items_text(views(v@).take(i as int)));
    }
    assert(views(v@).take(v@.len() as int) =~= views(v@));
    out.push(']');
    assert(out@ =~= start + list_text(views(v@)));
}

/// Joining one more line appends it and a newline.
proof fn lemma_joined_push(ls: Seq<Seq<char>>, l: Seq<char>)
    ensures
        joined(ls.push(l)) == joined(ls) + l + seq!['\n'],
{
    assert(ls.push(l).drop_last() =~= ls);
}

/// Append `key = `.
fn push_key(out: &mut String, key: &str)
    ensures
        final(out)@ == old(out)@ + key@ + seq![' ', '=', ' '],
{
    out.append(key);
    out.append(" = ");
    proof {
        reveal_strlit(" = ");
    }
    assert(final(out)@ =~= old(out)@ + key@ + seq![' ', '=', ' ']);
}

/// Append the line `key = [..]` for the strings of `v`.
fn push_list_line(out: &mut String, key: &str, v: &Vec<String>)
    ensures
        final(out)@ == old(out)@ + pair_line(key@, list_text(views(v@))) + seq!['\n'],
{
    push_key(out, key);
    push_list(out, v);
    out.push('\n');
    assert(final(out)@ =~= old(out)@ + pair_line(key@, list_text(views(v@))) + seq!['\n']);
}

/// Append the line `key = "x"`.
fn push_string_line(out: &mut String, key: &str, x: &str)
    ensures
        final(out)@ == old(out)@ + pair_line(key@, quoted(x@)) + seq!['\n'],
{
    push_key(out, key);
    push_quoted(out, x);
    out.push('\n');
    assert(final(out)@ =~= old(out)@ + pair_line(key@, quoted(x@)) + seq!['\n']);
}

/// Append the line `key = true` or `key = false`.
fn push_bool_line(out: &mut String, key: &str, b: bool)
    ensures
        final(out)@ == old(out)@ + pair_line(key@, bool_text(b)) + seq!['\n'],
{
    push_key(out, key);
    proof {
        reveal_strlit("true");
        reveal_strlit("false");
    }
    if b {
        out.append("true");
    } else {
        out.append("false");
    }
    out.push('\n');
    assert(final(out)@ =~= old(out)@ + pair_line(key@, bool_text(b)) + seq!['\n']);
}

/// Append the line `key = n`.
fn push_u64_line(out: &mut String, key: &str, n: u64)
    ensures
        final(out)@ == old(out)@ + pair_line(key@, decimal(n as nat)) + seq!['\n'],
{
    push_key(out, key);
    let d = crate::text::decimal_text(n);
    out.append(d.as_str());
    out.push('\n');
    assert(final(out)@ =~= old(out)@ + pair_line(key@, decimal(n as nat)) + seq!['\n']);
}

/// The text that describes `c`, read back by `read_config` as `c`.
pub fn write_config(c: &Config) -> (r: String)
    ensures
        r@ == config_text(c.value()),
{
    let cv = Ghost(c.value());
    let mut out = String::new();
    let ghost mut ls: Seq<Seq<char>> = Seq::empty();
    assert(out@ =~= joined(ls));
    push_list_line(&mut out, "default_roots", &c.default_roots);
    proof {
        let l = pair_line(roots_key(), list_text(cv@.0));
        lemma_joined_push(ls, l);
        ls = ls.push(l);
    }
    push_list_line(&mut out, "ignore_globs", &c.ignore_globs);
    proof {
        let l = pair_line(globs_key(), list_text(cv@.3));
        lemma_joined_push(ls, l);
        ls = ls.push(l);
    }
    push_bool_line(&mut out, "follow_symlinks", c.follow_symlinks);
    proof {
        let l = pair_line(follow_key(), bool_text(cv@.4));
        lemma_joined_push(ls, l);
        ls = ls.push(l);
        assert(ls =~= seq![
            pair_line(roots_key(), list_text(cv@.0)),
            pair_line(globs_key(), list_text(cv@.3)),
            pair_line(follow_key(), bool_text(cv@.4)),
        ]);
    }
    let ghost a = ls;
    match &c.snapshot_db {
        Some(x) => {
            push_string_line(&mut out, "snapshot_db", x.as_str());
            proof {
                let l = pair_line(snapshot_key(), quoted(x@));
                lemma_joined_push(ls, l);
                ls = ls.push(l);
            }
        },
        None => {},
    }
    let ghost b = ls;
    match &c.report_dir {
        Some(x) => {
            push_string_line(&mut out, "report_dir", x.as_str());
            proof {
                let l = pair_line(report_key(), quoted(x@));
                lemma_joined_push(ls, l);
                ls = ls.push(l);
            }
        },
        None => {},
    }
    let ghost before = out@;
    out.append("[line_counting]\n");
    proof {
        reveal_strlit("[line_counting]\n");
        reveal_strlit("line_counting");
        let l = table_line();
        assert(out@ =~= before + l + seq!['\n']);
        lemma_joined_push(ls, l);
        ls = ls.push(l);
    }
    push_list_line(&mut out, "extensions", &c.line_counting.extensions);
    proof {
        let l = pair_line(extensions_key(), list_text(cv@.5));
        lemma_joined_push(ls, l);
        ls = ls.push(l);
    }
    match c.line_counting.max_size_bytes {
        Some(n) => {
            push_u64_line(&mut out, "max_size_bytes", n);
            proof {
                let l = pair_line(max_size_key(), decimal(n as nat));
                lemma_joined_push(ls, l);
                ls = ls.push(l);
            }
        },
        None => {},
    }
    assert(ls =~= config_lines(cv@));
    out
}

} // verus!
