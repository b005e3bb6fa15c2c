//! The cron backend: the text work on a crontab. Each managed entry is one
//! line `<cron> <command> # filecanopy:<name>`, so that it can be found and
//! removed later; every other line of the crontab is left as it is. Reading
//! and writing the crontab itself (the `crontab` program) is the caller's.
use vstd::prelude::*;

use crate::config_text::{chars_of, find_char, index_of, lemma_index_of_concat, range_is};
use crate::error::Error;
use crate::scheduler::ScheduledTask;
use vstd::string::StringExecFns;

verus! {

/// Name, schedule and command of a task.
pub type TaskValue = (Seq<char>, Seq<char>, Seq<char>);

pub open spec fn task_value(t: ScheduledTask) -> TaskValue {
    (t.name@, t.cron@, t.command@)
}

/// The tag that starts the comment of a managed line.
pub open spec fn tag_text() -> Seq<char> {
    "# filecanopy:"@
}

pub open spec fn no_char(s: Seq<char>, c: char) -> bool {
    forall|i: int| 0 <= i < s.len() ==> s[i] != c
}

/// Number of blanks in `s`.
pub open spec fn count_spaces(s: Seq<char>) -> nat
    decreases s.len(),
{
    if s.len() == 0 {
        0
    } else {
        (if s[0] == ' ' {
            1nat
        } else {
            0nat
        }) + count_spaces(s.drop_first())
    }
}

/// Index of the blank that follows the first `n` blanks of `s`, or
/// `s.len()` when there are not that many.
pub open spec fn nth_space(s: Seq<char>, n: nat) -> nat
    decreases s.len(),
{
    if s.len() == 0 {
        0
    } else if s[0] == ' ' && n == 0 {
        0
    } else {
        1 + nth_space(s.drop_first(), if s[0] == ' ' {
            (n - 1) as nat
        } else {
            n
        })
    }
}

/// A task that can be written as one managed line and read back: a
/// schedule of five fields separated by single blanks, and no line break,
/// nor `#` in the schedule or the command.
pub open spec fn task_ok(t: TaskValue) -> bool {
    &&& no_char(t.0, '\n')
    &&& no_char(t.1, '\n')
    &&& no_char(t.1, '#')
    &&& count_spaces(t.1) == 4
    &&& no_char(t.2, '\n')
    &&& no_char(t.2, '#')
}

/// The managed line of a task.
pub open spec fn entry_line(t: TaskValue) -> Seq<char> {
    t.1 + seq![' '] + t.2 + seq![' '] + tag_text() + t.0
}

/// The task that the crontab line `line` manages, if it is a managed line.
pub open spec fn parse_entry(line: Seq<char>) -> Option<TaskValue> {
    let k = index_of(line, '#') as int;
    if k == 0 || k >= line.len() || line[k - 1] != ' ' || line.len() < k + 13 || line.subrange(k, k + 13)
        != tag_text() {
        None
    } else {
        let body = line.take(k - 1);
        let j = nth_space(body, 4) as int;
        if j >= body.len() {
            None
        } else {
            Some((line.skip(k + 13), body.take(j), body.skip(j + 1)))
        }
    }
}

/// The managed tasks of the crontab text `t`, line by line.
pub open spec fn tasks_in(t: Seq<char>) -> Seq<TaskValue>
    decreases t.len(),
{
    let k = index_of(t, '\n') as int;
    let here = match parse_entry(t.take(k)) {
        Some(x) => seq![x],
        None => Seq::empty(),
    };
    if k >= t.len() {
        here
    } else {
        here + tasks_in(t.skip(k + 1))
    }
}

/// The crontab `c` with its last line ended, if it has one.
pub open spec fn ended(c: Seq<char>) -> Seq<char> {
    if c.len() > 0 && c.last() != '\n' {
        c.push('\n')
    } else {
        c
    }
}

/// The crontab `c` with the managed line of `t` appended.
pub open spec fn install_text(c: Seq<char>, t: TaskValue) -> Seq<char> {
    ended(c) + entry_line(t) + seq!['\n']
}

/// The line `line` stays when the task `name` is removed.
pub open spec fn kept(line: Seq<char>, name: Seq<char>) -> bool {
    !(parse_entry(line) matches Some(x) && x.0 == name)
}

/// The crontab `t` without the managed lines of the task `name`; every
/// other line stays as it was.
pub open spec fn without_task(t: Seq<char>, name: Seq<char>) -> Seq<char>
    decreases t.len(),
{
    let k = index_of(t, '\n') as int;
    let line = t.take(k);
    if k >= t.len() {
        if kept(line, name) {
            line
        } else {
            Seq::empty()
        }
    } else {
        (if kept(line, name) {
            line.push('\n')
        } else {
            Seq::empty()
        }) + without_task(t.skip(k + 1), name)
    }
}

pub proof fn lemma_index_of_bound(s: Seq<char>, c: char)
    ensures
        index_of(s, c) <= s.len(),
        index_of(s, c) < s.len() ==> s[index_of(s, c) as int] == c,
        forall|i: int| 0 <= i < index_of(s, c) ==> s[i] != c,
    decreases s.len(),
{
    if s.len() > 0 && s[0] != c {
        lemma_index_of_bound(s.drop_first(), c);
        assert forall|i: int| 0 <= i < index_of(s, c) implies s[i] != c by {
            if i > 0 {
                assert(s[i] == s.drop_first()[i - 1]);
            }
        }
    }
}

proof fn lemma_nth_space(a: Seq<char>, b: Seq<char>, n: nat)
    requires
        count_spaces(a) == n,
    ensures
        nth_space(a + seq![' '] + b, n) == a.len(),
    decreases a.len(),
{
    let s = a + seq![' '] + b;
    if a.len() > 0 {
        assert(s.drop_first() =~= a.drop_first() + seq![' '] + b);
        assert(s[0] == a[0]);
        lemma_nth_space(a.drop_first(), b, if a[0] == ' ' {
            (n - 1) as nat
        } else {
            n
        });
    } else {
        assert(s[0] == ' ');
    }
}

proof fn lemma_tag()
    ensures
        tag_text().len() == 13,
        tag_text()[0] == '#',
        tag_text()[1] == ' ',
        forall|i: int| 0 <= i < 13 ==> tag_text()[i] != '\n',
{
    reveal_strlit("# filecanopy:");
}

/// The managed line of a well-formed task reads back as the task.
proof fn lemma_parse_entry(t: TaskValue)
    requires
        task_ok(t),
    ensures
        parse_entry(entry_line(t)) == Some(t),
        no_char(entry_line(t), '\n'),
{
    lemma_tag();
    let line = entry_line(t);
    let a = t.1 + seq![' '] + t.2 + seq![' '];
    let b = tag_text() + t.0;
    assert(line =~= a + b);
    assert(no_char(a, '#')) by {
        assert forall|i: int| 0 <= i < a.len() implies a[i] != '#' by {
            if i < t.1.len() {
            } else if i == t.1.len() {
            } else if i < t.1.len() + 1 + t.2.len() {
                assert(a[i] == t.2[i - t.1.len() - 1]);
            }
        }
    }
    lemma_index_of_concat(a, b, '#');
    assert(b[0] == '#');
    let k = a.len() as int;
    assert(index_of(line, '#') == k);
    assert(line[k - 1] == ' ');
    assert(line.subrange(k, k + 13) =~= tag_text());
    assert(line.skip(k + 13) =~= t.0);
    let body = line.take(k - 1);
    assert(body =~= t.1 + seq![' '] + t.2);
    lemma_nth_space(t.1, t.2, 4);
    assert(body.take(t.1.len() as int) =~= t.1);
    assert(body.skip(t.1.len() + 1int) =~= t.2);
    assert forall|i: int| 0 <= i < line.len() implies line[i] != '\n' by {
        if i < t.1.len() {
        } else if i == t.1.len() {
        } else if i < t.1.len() + 1 + t.2.len() {
            assert(line[i] == t.2[i - t.1.len() - 1]);
        } else if i == t.1.len() + 1 + t.2.len() {
        } else if i < k + 13 {
            assert(line[i] == tag_text()[i - k]);
        } else {
            assert(line[i] == t.0[i - k - 13]);
        }
    }
}

/// Reading the lines of `p`, which ends with a line break, then those of
/// `x`, is reading `p + x`.
proof fn lemma_tasks_concat(p: Seq<char>, x: Seq<char>)
    requires
        p.len() > 0,
        p.last() == '\n',
    ensures
        tasks_in(p + x) == tasks_in(p) + tasks_in(x),
    decreases p.len(),
{
    lemma_index_of_bound(p, '\n');
    let k = index_of(p, '\n') as int;
    assert(k < p.len());
    let px = p + x;
    assert(forall|i: int| 0 <= i < k ==> px[i] == p[i]);
    lemma_index_of_bound(px, '\n');
    assert(index_of(px, '\n') == k) by {
        let m = index_of(px, '\n') as int;
        if m < k {
            assert(px[m] == p[m]);
        }
        if m > k {
            assert(px[k] == p[k]);
        }
    }
    assert(px.take(k) =~= p.take(k));
    let here = match parse_entry(p.take(k)) {
        Some(v) => seq![v],
        None => Seq::<TaskValue>::empty(),
    };
    if k == p.len() - 1 {
        assert(px.skip(k + 1) =~= x);
        assert(p.skip(k + 1) =~= Seq::<char>::empty());
        assert(Seq::<char>::empty().take(0) =~= Seq::<char>::empty());
        assert(tasks_in(Seq::<char>::empty()) =~= Seq::<TaskValue>::empty()) by {
            lemma_no_entry_empty();
        }
        assert(tasks_in(p) =~= here);
    } else {
        let q = p.skip(k + 1);
        assert(q.last() == '\n');
        assert(px.skip(k + 1) =~= q + x);
        lemma_tasks_concat(q, x);
        assert(here + (tasks_in(q) + tasks_in(x)) =~= (here + tasks_in(q)) + tasks_in(x));
    }
}

proof fn lemma_no_entry_empty()
    ensures
        parse_entry(Seq::<char>::empty()) is None,
        tasks_in(Seq::<char>::empty()) == Seq::<TaskValue>::empty(),
{
    assert(Seq::<char>::empty().take(0) =~= Seq::<char>::empty());
}

/// Ending the last line adds no task.
proof fn lemma_tasks_ended(c: Seq<char>)
    ensures
        tasks_in(ended(c)) == tasks_in(c),
    decreases c.len(),
{
    if c.len() > 0 && c.last() != '\n' {
        let d = c.push('\n');
        lemma_index_of_bound(c, '\n');
        let k = index_of(c, '\n') as int;
        lemma_index_of_bound(d, '\n');
        assert(forall|i: int| 0 <= i < c.len() ==> d[i] == c[i]);
        if k < c.len() {
            assert(index_of(d, '\n') == k) by {
                let m = index_of(d, '\n') as int;
                if m < k {
                    assert(d[m] == c[m]);
                }
                if m > k {
                    assert(d[k] == c[k]);
                }
            }
            assert(d.take(k) =~= c.take(k));
            let q = c.skip(k + 1);
            assert(d.skip(k + 1) =~= q.push('\n'));
            assert(q.len() > 0 && q.last() == c.last());
            lemma_tasks_ended(q);
        } else {
            assert(index_of(d, '\n') == c.len()) by {
                let m = index_of(d, '\n') as int;
                assert(d[c.len() as int] == '\n');
                if m < c.len() {
                    assert(d[m] == c[m]);
                }
            }
            assert(d.take(c.len() as int) =~= c);
            assert(c.take(c.len() as int) =~= c);
            assert(d.skip(c.len() + 1int) =~= Seq::<char>::empty());
            lemma_no_entry_empty();
            assert(tasks_in(d) =~= tasks_in(c));
        }
    }
}

/// A task installed into a crontab is listed from the result, after the
/// tasks that were there.
pub proof fn lemma_list_after_install(c: Seq<char>, t: TaskValue)
    requires
        task_ok(t),
    ensures
        tasks_in(install_text(c, t)) == tasks_in(c).push(t),
        install_text(c, t).take(ended(c).len() as int) == ended(c),
{
    let e = entry_line(t) + seq!['\n'];
    lemma_parse_entry(t);
    lemma_index_of_concat(entry_line(t), seq!['\n'], '\n');
    assert(index_of(seq!['\n'], '\n') == 0);
    assert(e.take(entry_line(t).len() as int) =~= entry_line(t));
    assert(e.skip(entry_line(t).len() + 1int) =~= Seq::<char>::empty());
    lemma_no_entry_empty();
    assert(tasks_in(e) =~= seq![t]);
    lemma_tasks_ended(c);
    assert(install_text(c, t) =~= ended(c) + e);
    if ended(c).len() > 0 {
        lemma_tasks_concat(ended(c), e);
    } else {
        assert(ended(c) + e =~= e);
        assert(tasks_in(c) =~= Seq::<TaskValue>::empty()) by {
            assert(c.len() == 0);
            assert(c =~= Seq::<char>::empty());
        }
    }
    assert(install_text(c, t).take(ended(c).len() as int) =~= ended(c));
}

/// The tasks not named `name`.
pub open spec fn other_tasks(name: Seq<char>) -> spec_fn(TaskValue) -> bool {
    |x: TaskValue| x.0 != name
}

/// A line without a line break, read alone or followed by one, gives the
/// same task.
proof fn lemma_tasks_line(line: Seq<char>)
    requires
        no_char(line, '\n'),
    ensures
        tasks_in(line) == tasks_in(line.push('\n')),
        tasks_in(line) == match parse_entry(line) {
            Some(x) => seq![x],
            None => Seq::<TaskValue>::empty(),
        },
{
    lemma_index_of_bound(line, '\n');
    assert(line.take(line.len() as int) =~= line);
    lemma_tasks_ended(line);
    if line.len() == 0 {
        lemma_no_entry_empty();
        assert(line =~= Seq::<char>::empty());
        let d = line.push('\n');
        assert(index_of(d, '\n') == 0);
        assert(d.take(0) =~= Seq::<char>::empty());
        assert(d.skip(1) =~= Seq::<char>::empty());
    }
}

/// Removing the task `name` from a crontab removes exactly its entries
/// from the list and keeps the others, in order.
pub proof fn lemma_list_after_remove(c: Seq<char>, name: Seq<char>)
    ensures
        tasks_in(without_task(c, name)) == tasks_in(c).filter(other_tasks(name)),
    decreases c.len(),
{
    broadcast use Seq::filter_distributes_over_add;

    lemma_index_of_bound(c, '\n');
    let k = index_of(c, '\n') as int;
    let line = c.take(k);
    assert(no_char(line, '\n'));
    lemma_tasks_line(line);
    let here = match parse_entry(line) {
        Some(x) => seq![x],
        None => Seq::<TaskValue>::empty(),
    };
    assert(here.filter(other_tasks(name)) == if kept(line, name) {
        here
    } else {
        Seq::<TaskValue>::empty()
    }) by {
        reveal_with_fuel(Seq::filter, 2);
        match parse_entry(line) {
            Some(x) => {
                assert(seq![x].drop_last() =~= Seq::<TaskValue>::empty());
            },
            None => {},
        }
    }
    lemma_no_entry_empty();
    if k >= c.len() {
        assert(line =~= c);
        if !kept(line, name) {
            assert(without_task(c, name) =~= Seq::<char>::empty());
        }
    } else {
        let rest = c.skip(k + 1);
        lemma_list_after_remove(rest, name);
        let w = without_task(rest, name);
        if kept(line, name) {
            lemma_tasks_concat(line.push('\n'), w);
            assert(tasks_in(c) == here + tasks_in(rest));
        } else {
            assert(without_task(c, name) =~= w);
        }
    }
}

/// The text of `lo..hi`.
fn string_of(t: &Vec<char>, lo: usize, hi: usize) -> (r: String)
    requires
        lo <= hi <= t@.len(),
    ensures
        r@ == t@.subrange(lo as int, hi as int),
{
    let mut out = String::new();
    let mut i = lo;
    while i < hi
        invariant
            lo <= i <= hi <= t@.len(),
            out@ == t@.subrange(lo as int, i as int),
        decreases hi - i,
    {
        out.push(t[i]);
        i = i + 1;
        assert(out@ =~= t@.subrange(lo as int, i as int));
    }
    out
}

/// The index in `lo..hi` of the blank after the first `n` blanks, or `hi`.
fn nth_space_exec(t: &Vec<char>, lo: usize, hi: usize, n: usize) -> (r: usize)
    requires
        lo <= hi <= t@.len(),
    ensures
        lo <= r <= hi,
        r - lo == nth_space(t@.subrange(lo as int, hi as int), n as nat),
{
    let mut i = lo;
    let mut left = n;
    while i < hi && !(t[i] == ' ' && left == 0)
        invariant
            lo <= i <= hi <= t@.len(),
            nth_space(t@.subrange(lo as int, hi as int), n as nat) == (i - lo) + nth_space(
                t@.subrange(i as int, hi as int),
                left as nat,
            ),
        decreases hi - i,
    {
        assert(t@.subrange(i as int, hi as int)[0] == t@[i as int]);
        assert(t@.subrange(i as int, hi as int).drop_first() =~= t@.subrange(i + 1, hi as int));
        if t[i] == ' ' {
            left = left - 1;
        }
        i = i + 1;
    }
    if i < hi {
        assert(t@.subrange(i as int, hi as int)[0] == t@[i as int]);
    }
    i
}

/// The task that the line `lo..hi` manages, if it is a managed line.
fn read_entry(t: &Vec<char>, lo: usize, hi: usize) -> (r: Option<ScheduledTask>)
    requires
        lo <= hi <= t@.len(),
    ensures
        match parse_entry(t@.subrange(lo as int, hi as int)) {
            None => r is None,
            Some(v) => r matches Some(x) && task_value(x) == v,
        },
{
    let ghost line = t@.subrange(lo as int, hi as int);
    proof {
        lemma_tag();
    }
    let e = find_char(t, lo, hi, '#');
    if e == lo || e >= hi {
        return None;
    }
    assert(line[e - lo - 1] == t@[e - 1]);
    if t[e - 1] != ' ' || hi - e < 13 {
        return None;
    }
    assert(line.subrange(e - lo, e - lo + 13) =~= t@.subrange(e as int, e + 13));
    if !range_is(t, e, e + 13, "# filecanopy:") {
        return None;
    }
    let ghost body = line.take(e - lo - 1);
    assert(body =~= t@.subrange(lo as int, e - 1));
    let j = nth_space_exec(t, lo, e - 1, 4);
    if j >= e - 1 {
        return None;
    }
    assert(line.skip(e - lo + 13) =~= t@.subrange(e + 13, hi as int));
    assert(body.take(j - lo) =~= t@.subrange(lo as int, j as int));
    assert(body.skip(j - lo + 1) =~= t@.subrange(j + 1, e - 1));
    let name = string_of(t, e + 13, hi);
    let cron = string_of(t, lo, j);
    let command = string_of(t, j + 1, e - 1);
    Some(ScheduledTask { name, cron, command })
}

/// The managed tasks of the crontab text `crontab`, in the order of their
/// lines.
pub fn list(crontab: &str) -> (r: Vec<ScheduledTask>)
    ensures
        r@.map_values(|x: ScheduledTask| task_value(x)) == tasks_in(crontab@),
{
    let t = chars_of(crontab);
    let n = t.len();
    let mut out: Vec<ScheduledTask> = Vec::new();
    let mut i: usize = 0;
    assert(t@.skip(0) =~= t@);
    assert(out@.map_values(|x: ScheduledTask| task_value(x)) =~= Seq::<TaskValue>::empty());
    loop
        invariant
            n == t@.len(),
            i <= n,
            t@ == crontab@,
            tasks_in(crontab@) == out@.map_values(|x: ScheduledTask| task_value(x)) + tasks_in(t@.skip(i as int)),
        decreases n - i,
    {
        let ghost rest = t@.skip(i as int);
        let ghost before = out@.map_values(|x: ScheduledTask| task_value(x));
        let k = find_char(&t, i, n, '\n');
        assert(t@.subrange(i as int, n as int) =~= rest);
        assert(rest.take(k - i) =~= t@.subrange(i as int, k as int));
        match read_entry(&t, i, k) {
            Some(x) => {
                out.push(x);
                assert(out@.map_values(|x: ScheduledTask| task_value(x)) =~= before + seq![task_value(x)]);
            },
            None => {
                assert(before + Seq::<TaskValue>::empty() =~= before);
            },
        }
        if k >= n {
            assert(tasks_in(crontab@) =~= out@.map_values(|x: ScheduledTask| task_value(x)));
            return out;
        }
        assert(rest.skip(k - i + 1) =~= t@.skip(k + 1));
        let ghost mid = out@.map_values(|x: ScheduledTask| task_value(x));
        assert(tasks_in(crontab@) =~= mid + tasks_in(t@.skip(k + 1)));
        i = k + 1;
    }
}

/// `lo..hi` holds no `c`.
fn lacks(s: &str, c: char) -> (r: bool)
    ensures
        r == no_char(s@, c),
{
    let n = s.unicode_len();
    let mut i: usize = 0;
    while i < n
        invariant
            n == s@.len(),
            i <= n,
            forall|j: int| 0 <= j < i ==> s@[j] != c,
        decreases n - i,
    {
        if s.get_char(i) == c {
            return false;
        }
        i = i + 1;
    }
    true
}

/// Number of blanks in `s`.
fn spaces_in(s: &str) -> (r: usize)
    ensures
        r == count_spaces(s@),
{
    let n = s.unicode_len();
    let mut i: usize = n;
    let mut k: usize = 0;
    assert(s@.skip(n as int) =~= Seq::<char>::empty());
    while i > 0
        invariant
            n == s@.len(),
            i <= n,
            k <= n - i,
            count_spaces(s@.skip(i as int)) == k,
        decreases i,
    {
        i = i - 1;
        assert(s@.skip(i as int).drop_first() =~= s@.skip(i + 1));
        assert(s@.skip(i as int)[0] == s@[i as int]);
        if s.get_char(i) == ' ' {
            k = k + 1;
        }
    }
    assert(s@.skip(0) =~= s@);
    k
}

/// Append the managed line of `task` to the crontab text `crontab`, after
/// ending its last line; every line of `crontab` stays as it was. Refused
/// with a scheduler error when the task cannot be written as one managed
/// line (see [`task_ok`]).
pub fn install(crontab: &str, task: &ScheduledTask) -> (r: Result<String, Error>)
    ensures
        match r {
            Ok(text) => task_ok(task_value(*task)) && text@ == install_text(crontab@, task_value(*task)),
            Err(e) => !task_ok(task_value(*task)) && e is Scheduler,
        },
{
    let ok = lacks(task.name.as_str(), '\n') && lacks(task.cron.as_str(), '\n') && lacks(task.cron.as_str(), '#')
        && spaces_in(task.cron.as_str()) == 4 && lacks(task.command.as_str(), '\n') && lacks(
        task.command.as_str(),
        '#',
    );
    if !ok {
        return Err(
            Error::Scheduler(
                String::from_str(
                    "a task needs a five-field schedule and no line break, nor '#' in its schedule or command",
                ),
            ),
        );
    }
    let mut out = String::from_str(crontab);
    let n = crontab.unicode_len();
    if n > 0 && crontab.get_char(n - 1) != '\n' {
        out.push('\n');
    }
    assert(out@ == ended(crontab@));
    out.append(task.cron.as_str());
    out.push(' ');
    out.append(task.command.as_str());
    out.push(' ');
    out.append("# filecanopy:");
    out.append(task.name.as_str());
    out.push('\n');
    assert(out@ =~= install_text(crontab@, task_value(*task)));
    Ok(out)
}

/// Append the characters of `lo..hi`.
fn push_range(out: &mut String, t: &Vec<char>, lo: usize, hi: usize)
    requires
        lo <= hi <= t@.len(),
    ensures
        final(out)@ == old(out)@ + t@.subrange(lo as int, hi as int),
{
    let ghost start = out@;
    let mut i = lo;
    while i < hi
        invariant
            lo <= i <= hi <= t@.len(),
            out@ == start + t@.subrange(lo as int, i as int),
        decreases hi - i,
    {
        out.push(t[i]);
        i = i + 1;
        assert(out@ =~= start + t@.subrange(lo as int, i as int));
    }
}

/// The crontab text `crontab` without the managed lines of the task
/// `name`; every other line stays as it was.
pub fn remove(crontab: &str, name: &str) -> (r: String)
    ensures
        r@ == without_task(crontab@, name@),
{
    let t = chars_of(crontab);
    let n = t.len();
    let mut out = String::new();
    let mut i: usize = 0;
    assert(t@.skip(0) =~= t@);
    assert(out@ + without_task(t@, name@) =~= without_task(t@, name@));
    loop
        invariant
            n == t@.len(),
            i <= n,
            t@ == crontab@,
            without_task(crontab@, name@) == out@ + without_task(t@.skip(i as int), name@),
        decreases n - i,
    {
        let ghost rest = t@.skip(i as int);
        let ghost before = out@;
        let k = find_char(&t, i, n, '\n');
        assert(t@.subrange(i as int, n as int) =~= rest);
        assert(rest.take(k - i) =~= t@.subrange(i as int, k as int));
        let ghost line = t@.subrange(i as int, k as int);
        let keep = match read_entry(&t, i, k) {
            Some(x) => !crate::text::str_eq(x.name.as_str(), name),
            None => true,
        };
        assert(keep == kept(line, name@));
        if keep {
            push_range(&mut out, &t, i, k);
            if k < n {
                out.push('\n');
            }
        }
        if k >= n {
            assert(out@ =~= without_task(crontab@, name@));
            return out;
        }
        assert(rest.skip(k - i + 1) =~= t@.skip(k + 1));
        assert(without_task(crontab@, name@) =~= out@ + without_task(t@.skip(k + 1), name@));
        i = k + 1;
    }
}

} // verus!
