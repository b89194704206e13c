//! Rows of listening ports: what `lsof -nP -iTCP -sTCP:LISTEN` reports,
//! their order, and which of them are new since the previous scan.
use vstd::prelude::*;
use std::collections::HashSet;
use crate::text::{
    after_last, after_last_colon, char_vecs_view, chars_of, decimal, join, lemma_lex_irreflexive,
    lemma_lex_transitive, lemma_lex_trichotomy, lemma_line_len_bound, lex_less, lex_less_chars,
    line_end, lines, parse_u16, parse_u16_chars, parse_u32, parse_u32_chars, push_chars,
    push_decimal, push_joined, push_str, split_whitespace, strip_cr, trim, trim_chars, words,
};

verus! {

broadcast use vstd::std_specs::hash::group_hash_axioms;

/// One listening socket: its port, the owning process and its pid, and
/// whether the port was absent from the previous scan.
#[derive(Clone, Debug, Eq, PartialEq)]
pub struct PortRow {
    pub port: u16,
    pub process: String,
    pub pid: u32,
    pub is_new: bool,
}

/// A row as plain values.
pub struct RowView {
    pub port: u16,
    pub process: Seq<char>,
    pub pid: u32,
    pub is_new: bool,
}

impl View for PortRow {
    type V = RowView;

    open spec fn view(&self) -> RowView {
        RowView { port: self.port, process: self.process@, pid: self.pid, is_new: self.is_new }
    }
}

/// The views of a sequence of rows.
pub open spec fn rows_view(s: Seq<PortRow>) -> Seq<RowView> {
    s.map_values(|r: PortRow| r@)
}

/// The text of a row: `":<port>  <process>  <pid>"`.
pub open spec fn label_of(r: RowView) -> Seq<char> {
    seq![':'] + decimal(r.port as nat) + seq![' ', ' '] + r.process + seq![' ', ' '] + decimal(
        r.pid as nat,
    )
}

/// Ports from 3000 through 9999, the usual range of development servers.
pub open spec fn is_dev_port(port: u16) -> bool {
    3000 <= port <= 9999
}

impl PortRow {
    pub fn label(&self) -> (s: String)
        ensures
            s@ == label_of(self@),
    {
        let mut s = String::new();
        s.push(':');
        push_decimal(&mut s, self.port as u64);
        s.push(' ');
        s.push(' ');
        push_str(&mut s, self.process.as_str());
        s.push(' ');
        s.push(' ');
        push_decimal(&mut s, self.pid as u64);
        s
    }

    pub fn is_common_dev_port(&self) -> (r: bool)
        ensures
            r == is_dev_port(self.port),
    {
        3000 <= self.port && self.port <= 9999
    }

    /// A copy of the row.
    pub fn duplicate(&self) -> (r: PortRow)
        ensures
            r@ == self@,
    {
        PortRow {
            port: self.port,
            process: self.process.clone(),
            pid: self.pid,
            is_new: self.is_new,
        }
    }
}

// ---------------------------------------------------------------------------
// One line of lsof output
// ---------------------------------------------------------------------------

pub open spec fn command_word() -> Seq<char> {
    seq!['C', 'O', 'M', 'M', 'A', 'N', 'D']
}

pub open spec fn tcp_word() -> Seq<char> {
    seq!['T', 'C', 'P']
}

/// The index of the first column equal to `w`.
pub open spec fn first_index_of(cols: Seq<Seq<char>>, w: Seq<char>) -> Option<int>
    decreases cols.len(),
{
    if cols.len() == 0 {
        None
    } else if cols[0] == w {
        Some(0)
    } else {
        match first_index_of(cols.drop_first(), w) {
            Some(i) => Some(i + 1),
            None => None,
        }
    }
}

pub proof fn lemma_first_index_of(cols: Seq<Seq<char>>, w: Seq<char>)
    ensures
        first_index_of(cols, w) matches Some(i) ==> 0 <= i < cols.len() && cols[i] == w,
    decreases cols.len(),
{
    if cols.len() > 0 && cols[0] != w {
        lemma_first_index_of(cols.drop_first(), w);
    }
}

/// The row that one line of lsof output describes, given the line's
/// whitespace-separated columns.
///
/// The columns are COMMAND PID USER FD TYPE DEVICE SIZE/OFF NODE NAME, but
/// COMMAND may itself hold spaces, so the line is anchored on the NODE
/// column `TCP`: the pid stands six columns before it, everything before the
/// pid is the command (joined by single spaces), and the port is what
/// follows the last `':'` of the column after `TCP`. The header line and
/// lines that do not fit yield no row.
pub open spec fn row_of_columns(cols: Seq<Seq<char>>) -> Option<RowView> {
    if cols.len() < 3 || cols[0] == command_word() {
        None
    } else {
        match first_index_of(cols, tcp_word()) {
            None => None,
            Some(t) => if t < 7 {
                None
            } else {
                match parse_u32(cols[t - 6]) {
                    None => None,
                    Some(pid) => if t + 1 >= cols.len() {
                        None
                    } else {
                        match parse_u16(after_last(cols[t + 1], ':')) {
                            None => None,
                            Some(port) => Some(
                                RowView {
                                    port,
                                    process: join(cols.take(t - 6), seq![' ']),
                                    pid,
                                    is_new: false,
                                },
                            ),
                        }
                    }
                }
            }
        }
    }
}

/// The port that an lsof address such as `127.0.0.1:8123` or `[::1]:443`
/// names: what follows its last `':'`, read as a `u16`.
pub fn parse_port(address: &str) -> (r: Option<u16>)
    ensures
        r == parse_u16(after_last(address@, ':')),
{
    let chars = chars_of(address);
    port_of_chars(chars.as_slice())
}

fn port_of_chars(address: &[char]) -> (r: Option<u16>)
    ensures
        r == parse_u16(after_last(address@, ':')),
{
    let text = after_last_colon(address);
    parse_u16_chars(text.as_slice())
}

/// Whether `a` and `b` hold the same characters.
pub fn chars_eq(a: &[char], b: &[char]) -> (r: bool)
    ensures
        r == (a@ == b@),
{
    if a.len() != b.len() {
        return false;
    }
    let mut i: usize = 0;
    while i < a.len()
        invariant
            i <= a@.len() == b@.len(),
            a@.take(i as int) == b@.take(i as int),
        decreases a@.len() - i,
    {
        if a[i] != b[i] {
            return false;
        }
        i = i + 1;
        assert(a@.take(i as int) == a@.take(i - 1).push(a@[i - 1]));
        assert(b@.take(i as int) == b@.take(i - 1).push(b@[i - 1]));
    }
    assert(a@.take(a@.len() as int) == a@);
    assert(b@.take(b@.len() as int) == b@);
    true
}

fn find_tcp(cols: &Vec<Vec<char>>) -> (r: Option<usize>)
    ensures
        match first_index_of(char_vecs_view(cols@), tcp_word()) {
            Some(i) => r == Some(i as usize),
            None => r is None,
        },
        r matches Some(i) ==> i < cols@.len(),
{
    proof {
        lemma_first_index_of(char_vecs_view(cols@), tcp_word());
    }
    let tcp: [char; 3] = ['T', 'C', 'P'];
    assert(tcp@ == tcp_word());
    let ghost view = char_vecs_view(cols@);
    let mut i: usize = 0;
    assert(view.skip(0) == view);
    while i < cols.len()
        invariant
            i <= cols@.len(),
            view == char_vecs_view(cols@),
            tcp@ == tcp_word(),
            first_index_of(view, tcp_word()) == (match first_index_of(
                view.skip(i as int),
                tcp_word(),
            ) {
                Some(k) => Some(k + i),
                None => None,
            }),
        decreases cols@.len() - i,
    {
        assert(view.skip(i as int)[0] == cols@[i as int]@);
        if chars_eq(cols[i].as_slice(), &tcp) {
            return Some(i);
        }
        assert(view.skip(i as int).drop_first() == view.skip(i + 1));
        i = i + 1;
    }
    None
}

/// The row that a line with columns `cols` describes.
pub fn row_from_columns(cols: &Vec<Vec<char>>) -> (r: Option<PortRow>)
    ensures
        match row_of_columns(char_vecs_view(cols@)) {
            Some(v) => r matches Some(p) && p@ == v,
            None => r is None,
        },
{
    let ghost view = char_vecs_view(cols@);
    if cols.len() < 3 {
        return None;
    }
    let command: [char; 7] = ['C', 'O', 'M', 'M', 'A', 'N', 'D'];
    assert(command@ == command_word());
    if chars_eq(cols[0].as_slice(), &command) {
        return None;
    }
    let t = match find_tcp(cols) {
        Some(t) => t,
        None => return None,
    };
    if t < 7 {
        return None;
    }
    let pid = match parse_u32_chars(cols[t - 6].as_slice()) {
        Some(pid) => pid,
        None => return None,
    };
    if t + 1 >= cols.len() {
        return None;
    }
    let port = match port_of_chars(cols[t + 1].as_slice()) {
        Some(port) => port,
        None => return None,
    };
    let mut process = String::new();
    push_joined(&mut process, cols.as_slice(), t - 6);
    assert(view[t - 6] == cols@[t - 6]@);
    assert(view[t + 1] == cols@[t + 1]@);
    assert(view[0] == cols@[0]@);
    assert(process@ =~= join(view.take(t - 6), seq![' ']));
    proof {
        lemma_first_index_of(view, tcp_word());
    }
    Some(PortRow { port, process, pid, is_new: false })
}

// ---------------------------------------------------------------------------
// Order of rows
// ---------------------------------------------------------------------------

/// Rows are ordered by port, then by process name (code-point order), then
/// by pid.
pub open spec fn row_less(a: RowView, b: RowView) -> bool {
    ||| a.port < b.port
    ||| a.port == b.port && lex_less(a.process, b.process)
    ||| a.port == b.port && a.process == b.process && a.pid < b.pid
}

/// `x` inserted into `s` before the first row that orders after it.
pub open spec fn insert_sorted(x: RowView, s: Seq<RowView>) -> Seq<RowView>
    decreases s.len(),
{
    if s.len() == 0 {
        seq![x]
    } else if row_less(x, s[0]) {
        seq![x] + s
    } else {
        seq![s[0]] + insert_sorted(x, s.drop_first())
    }
}

/// The stable sort of `s` by `row_less`: rows that order equal keep the
/// order they had.
pub open spec fn sorted_rows(s: Seq<RowView>) -> Seq<RowView>
    decreases s.len(),
{
    if s.len() == 0 {
        seq![]
    } else {
        insert_sorted(s.last(), sorted_rows(s.drop_last()))
    }
}

proof fn lemma_insert_at(x: RowView, s: Seq<RowView>, j: int)
    requires
        0 <= j <= s.len(),
        forall|t: int| 0 <= t < j ==> !row_less(x, #[trigger] s[t]),
        j == s.len() || row_less(x, s[j]),
    ensures
        insert_sorted(x, s) == s.take(j) + seq![x] + s.skip(j),
    decreases j,
{
    if j == 0 {
        assert(s.skip(0) == s);
        if s.len() == 0 {
            assert(s.take(0) + seq![x] + s.skip(0) == seq![x]);
        } else {
            assert(s.take(0) + seq![x] + s.skip(0) == seq![x] + s);
        }
    } else {
        let rest = s.drop_first();
        assert forall|t: int| 0 <= t < j - 1 implies !row_less(x, #[trigger] rest[t]) by {
            assert(rest[t] == s[t + 1]);
        }
        if j < s.len() {
            assert(rest[j - 1] == s[j]);
        }
        lemma_insert_at(x, rest, j - 1);
        assert(seq![s[0]] + (rest.take(j - 1) + seq![x] + rest.skip(j - 1)) == s.take(j) + seq![x]
            + s.skip(j));
    }
}

/// Whether row `a` orders strictly before row `b`.
pub fn row_less_exec(a: &PortRow, b: &PortRow) -> (r: bool)
    ensures
        r == row_less(a@, b@),
{
    if a.port != b.port {
        return a.port < b.port;
    }
    let pa = chars_of(a.process.as_str());
    let pb = chars_of(b.process.as_str());
    if lex_less_chars(pa.as_slice(), pb.as_slice()) {
        return true;
    }
    if chars_eq(pa.as_slice(), pb.as_slice()) {
        a.pid < b.pid
    } else {
        false
    }
}

/// Sorts the rows by port, then process name, then pid; rows that compare
/// equal keep their order.
pub fn sort_rows(rows: &mut [PortRow])
    ensures
        rows_view(final(rows)@) == sorted_rows(rows_view(old(rows)@)),
{
    let ghost orig = rows_view(rows@);
    let n = rows.len();
    let mut i: usize = 0;
    assert(orig.take(0) == Seq::<RowView>::empty());
    assert(rows_view(rows@).take(0) == Seq::<RowView>::empty());
    while i < n
        invariant
            n == rows@.len() == orig.len(),
            i <= n,
            rows_view(rows@).take(i as int) == sorted_rows(orig.take(i as int)),
            rows_view(rows@).skip(i as int) == orig.skip(i as int),
        decreases n - i,
    {
        let ghost before = rows_view(rows@);
        let ghost prefix = before.take(i as int);
        assert(before[i as int] == orig.skip(i as int)[0]);
        let x = rows[i].duplicate();
        let mut j: usize = 0;
        while j < i && !row_less_exec(&x, &rows[j])
            invariant
                j <= i < n == rows@.len(),
                before == rows_view(rows@),
                prefix == before.take(i as int),
                forall|t: int| 0 <= t < j ==> !row_less(x@, #[trigger] prefix[t]),
            decreases i - j,
        {
            assert(prefix[j as int] == rows@[j as int]@);
            j = j + 1;
        }
        proof {
            if j < i {
                assert(prefix[j as int] == rows@[j as int]@);
            }
            lemma_insert_at(x@, prefix, j as int);
        }
        let ghost brows = rows@;
        let mut k = i;
        while k > j
            invariant
                j <= k <= i < n == rows@.len() == brows.len(),
                forall|t: int| 0 <= t <= k ==> (#[trigger] rows@[t])@ == brows[t]@,
                forall|t: int| k < t <= i ==> (#[trigger] rows@[t])@ == brows[t - 1]@,
                forall|t: int| i < t < n ==> (#[trigger] rows@[t])@ == brows[t]@,
            decreases k,
        {
            let moved = rows[k - 1].duplicate();
            rows[k] = moved;
            k = k - 1;
        }
        rows[j] = x;
        proof {
            let after = rows_view(rows@);
            let want = prefix.take(j as int) + seq![x@] + prefix.skip(j as int);
            assert(orig.take(i + 1).drop_last() == orig.take(i as int));
            assert(orig.take(i + 1).last() == x@);
            assert forall|t: int| 0 <= t < n implies #[trigger] before[t] == brows[t]@ by {}
            assert forall|t: int| 0 <= t < i + 1 implies #[trigger] after.take(i + 1)[t] == want[t] by {
                assert(after[t] == rows@[t]@);
                if t < j {
                    assert(want[t] == prefix[t]);
                } else if t == j {
                } else {
                    assert(want[t] == prefix[t - 1]);
                }
            }
            assert(after.take(i + 1) =~= want);
            assert forall|t: int| 0 <= t < after.skip(i + 1).len() implies #[trigger] after.skip(
                i + 1,
            )[t] == orig.skip(i + 1)[t] by {
                assert(after[i + 1 + t] == rows@[i + 1 + t]@);
                assert(before.skip(i as int)[t + 1] == before[i + 1 + t]);
            }
            assert(after.skip(i + 1) =~= orig.skip(i + 1));
        }
        i = i + 1;
    }
    assert(orig.take(n as int) == orig);
    assert(rows_view(rows@).take(n as int) == rows_view(rows@));
}

// ---------------------------------------------------------------------------
// Whole lsof output
// ---------------------------------------------------------------------------

/// Whether some row of `s` has this pid and port.
pub open spec fn has_pid_port(s: Seq<RowView>, pid: u32, port: u16) -> bool {
    exists|i: int| 0 <= i < s.len() && (#[trigger] s[i]).pid == pid && s[i].port == port
}

/// `acc` with the candidate row added, unless a row with the same pid and
/// port is already there.
pub open spec fn add_row(acc: Seq<RowView>, candidate: Option<RowView>) -> Seq<RowView> {
    match candidate {
        Some(r) => if has_pid_port(acc, r.pid, r.port) {
            acc
        } else {
            acc.push(r)
        },
        None => acc,
    }
}

/// The rows that the given lines describe, in the order of the lines, the
/// first line for each (pid, port) pair winning.
pub open spec fn rows_of_lines(ls: Seq<Seq<char>>) -> Seq<RowView>
    decreases ls.len(),
{
    if ls.len() == 0 {
        seq![]
    } else {
        add_row(rows_of_lines(ls.drop_last()), row_of_columns(words(ls.last())))
    }
}

/// The rows that lsof output `s` describes, sorted.
pub open spec fn lsof_rows(s: Seq<char>) -> Seq<RowView> {
    sorted_rows(rows_of_lines(lines(s)))
}

pub fn contains_pid_port(rows: &Vec<PortRow>, pid: u32, port: u16) -> (r: bool)
    ensures
        r == has_pid_port(rows_view(rows@), pid, port),
{
    let ghost view = rows_view(rows@);
    let mut i: usize = 0;
    while i < rows.len()
        invariant
            i <= rows@.len(),
            view == rows_view(rows@),
            forall|t: int| 0 <= t < i ==> !((#[trigger] view[t]).pid == pid && view[t].port == port),
        decreases rows@.len() - i,
    {
        assert(view[i as int] == rows@[i as int]@);
        if rows[i].pid == pid && rows[i].port == port {
            return true;
        }
        i = i + 1;
    }
    false
}

/// Parses the output of `lsof -nP -iTCP -sTCP:LISTEN` into rows, one for
/// each (pid, port) pair, sorted by port, process name and pid. Lines that
/// describe no listening socket are skipped, so parsing never fails.
pub fn parse_lsof(output: &str) -> (r: Result<Vec<PortRow>, String>)
    ensures
        r matches Ok(rows) && rows_view(rows@) == lsof_rows(output@),
{
    let chars = chars_of(output);
    let n = chars.len();
    let mut rows: Vec<PortRow> = Vec::new();
    let ghost mut done: Seq<Seq<char>> = seq![];
    let mut pos: usize = 0;
    assert(chars@.subrange(0, n as int) == chars@);
    while pos < n
        invariant
            n == chars@.len(),
            pos <= n,
            chars@ == output@,
            lines(chars@) == done + lines(chars@.subrange(pos as int, n as int)),
            rows_view(rows@) == rows_of_lines(done),
        decreases n - pos,
    {
        let ghost rest = chars@.subrange(pos as int, n as int);
        let k = line_end(chars.as_slice(), pos);
        let end = if k < n && k > pos && chars[k - 1] == '\r' {
            k - 1
        } else {
            k
        };
        let ghost line = chars@.subrange(pos as int, end as int);
        proof {
            lemma_line_len_bound(rest);
            if k == n {
                assert(rest == line);
                assert(lines(rest) == seq![line]);
            } else {
                assert(rest.take(k - pos) == chars@.subrange(pos as int, k as int));
                assert(strip_cr(rest.take(k - pos)) == line);
                assert(rest.skip(k - pos + 1) == chars@.subrange(k + 1, n as int));
                assert(lines(rest) == seq![line] + lines(chars@.subrange(k + 1, n as int)));
            }
        }
        let cols = split_whitespace(chars.as_slice(), pos, end);
        let candidate = row_from_columns(&cols);
        proof {
            let next = done.push(line);
            assert(next.drop_last() == done);
            assert(next.last() == line);
        }
        match candidate {
            Some(row) => {
                if !contains_pid_port(&rows, row.pid, row.port) {
                    let ghost old_rows = rows@;
                    rows.push(row);
                    assert(rows_view(rows@) == rows_view(old_rows).push(row@));
                }
            },
            None => {},
        }
        proof {
            done = done.push(line);
        }
        pos = if k < n {
            k + 1
        } else {
            n
        };
        assert(done + lines(chars@.subrange(pos as int, n as int)) == lines(chars@));
    }
    assert(done + lines(chars@.subrange(n as int, n as int)) == done);
    sort_rows(rows.as_mut_slice());
    Ok(rows)
}

// ---------------------------------------------------------------------------
// New ports
// ---------------------------------------------------------------------------

/// The ports that appear in `s`.
pub open spec fn ports_of(s: Seq<RowView>) -> Set<u16> {
    Set::new(|p: u16| exists|i: int| 0 <= i < s.len() && (#[trigger] s[i]).port == p)
}

/// `r` with its `is_new` flag set by whether its port is absent from `previous`.
pub open spec fn marked(r: RowView, previous: Set<u16>) -> RowView {
    RowView { is_new: !previous.contains(r.port), ..r }
}

/// Marks each row as new exactly when its port is not in `previous`.
pub fn mark_new_ports(rows: &mut [PortRow], previous: &HashSet<u16>)
    ensures
        final(rows)@.len() == old(rows)@.len(),
        forall|i: int|
            0 <= i < old(rows)@.len() ==> (#[trigger] final(rows)@[i])@ == marked(
                old(rows)@[i]@,
                previous@,
            ),
{
    let ghost orig = rows@;
    let mut i: usize = 0;
    while i < rows.len()
        invariant
            i <= rows@.len() == orig.len(),
            forall|t: int| 0 <= t < i ==> (#[trigger] rows@[t])@ == marked(orig[t]@, previous@),
            forall|t: int| i <= t < rows@.len() ==> #[trigger] rows@[t] == orig[t],
        decreases rows@.len() - i,
    {
        let mut row = rows[i].duplicate();
        row.is_new = !previous.contains(&row.port);
        rows[i] = row;
        i = i + 1;
    }
}

/// The set of ports that the rows hold.
pub fn port_set(rows: &[PortRow]) -> (set: HashSet<u16>)
    ensures
        set@ == ports_of(rows_view(rows@)),
{
    let ghost view = rows_view(rows@);
    let mut set: HashSet<u16> = HashSet::new();
    let mut i: usize = 0;
    while i < rows.len()
        invariant
            i <= rows@.len(),
            view == rows_view(rows@),
            set@ == ports_of(view.take(i as int)),
        decreases rows@.len() - i,
    {
        set.insert(rows[i].port);
        i = i + 1;
        proof {
            let prev = view.take(i - 1);
            let cur = view.take(i as int);
            assert(cur[i - 1] == rows@[i - 1]@);
            assert forall|p: u16| #[trigger] ports_of(cur).contains(p) == set@.contains(p) by {
                if ports_of(cur).contains(p) {
                    let t = choose|t: int| 0 <= t < cur.len() && (#[trigger] cur[t]).port == p;
                    if t < i - 1 {
                        assert(prev[t] == cur[t]);
                    }
                }
                if ports_of(prev).contains(p) {
                    let t = choose|t: int| 0 <= t < prev.len() && (#[trigger] prev[t]).port == p;
                    assert(prev[t] == cur[t]);
                }
            }
            assert(set@ =~= ports_of(cur));
        }
    }
    assert(view.take(rows@.len() as int) == view);
    set
}

// ---------------------------------------------------------------------------
// Running lsof
// ---------------------------------------------------------------------------

/// Why lsof could not be started: whether the program was not found, and
/// the text of the error.
pub struct LaunchError {
    pub not_found: bool,
    pub message: String,
}

/// What a finished lsof run produced.
pub struct LsofOutput {
    pub success: bool,
    pub stdout: Vec<u8>,
    pub stderr: Vec<u8>,
}

pub open spec fn lsof_missing_message() -> Seq<char> {
    "lsof is required to list listening ports; install lsof and press r to retry"@
}

/// The message shown when lsof could not be started.
pub fn lsof_start_error(error: LaunchError) -> (m: String)
    ensures
        error.not_found ==> m@ == lsof_missing_message(),
        !error.not_found ==> m@ == "could not start lsof: "@ + error.message@,
{
    if error.not_found {
        String::from_str("lsof is required to list listening ports; install lsof and press r to retry")
    } else {
        let mut m = String::from_str("could not start lsof: ");
        push_str(&mut m, error.message.as_str());
        m
    }
}

/// What `String::from_utf8_lossy` decodes from the given bytes.
pub uninterp spec fn utf8_lossy(bytes: Seq<u8>) -> Seq<char>;

/// Calls `String::from_utf8_lossy`. The contract claims that the result is
/// a function of the bytes alone, and, as the function's documentation says,
/// that valid UTF-8 is decoded unchanged (no replacement characters).
#[verifier::external_body]
fn decode_lossy(bytes: &[u8]) -> (s: String)
    ensures
        s@ == utf8_lossy(bytes@),
        vstd::utf8::valid_utf8(bytes@) ==> s@ == vstd::utf8::decode_utf8(bytes@),
{
    String::from_utf8_lossy(bytes).into_owned()
}

/// The message for an lsof run that failed with the given diagnostic text.
pub fn lsof_failure_message(stderr: &str) -> (m: String)
    ensures
        m@ == "lsof failed: "@ + trim(stderr@),
{
    let mut m = String::from_str("lsof failed: ");
    let cs = chars_of(stderr);
    let trimmed = trim_chars(cs.as_slice());
    push_chars(&mut m, trimmed.as_slice());
    m
}

/// The rows of a finished lsof run. A run that failed and wrote a
/// diagnostic is an error; otherwise the standard output is parsed (lsof
/// also fails, without a diagnostic, when nothing listens).
pub fn parse_lsof_result(output: LsofOutput) -> (r: Result<Vec<PortRow>, String>)
    ensures
        !output.success && output.stderr@.len() > 0 ==> (r matches Err(m) && m@ == "lsof failed: "@
            + trim(utf8_lossy(output.stderr@))),
        output.success || output.stderr@.len() == 0 ==> (r matches Ok(rows) && rows_view(rows@)
            == lsof_rows(utf8_lossy(output.stdout@))),
        !output.success && output.stderr@.len() > 0 && vstd::utf8::valid_utf8(output.stderr@) ==> (
        r matches Err(m) && m@ == "lsof failed: "@ + trim(vstd::utf8::decode_utf8(output.stderr@))),
        (output.success || output.stderr@.len() == 0) && vstd::utf8::valid_utf8(output.stdout@) ==> (
        r matches Ok(rows) && rows_view(rows@) == lsof_rows(vstd::utf8::decode_utf8(output.stdout@))),
{
    if !output.success && output.stderr.len() > 0 {
        let text = decode_lossy(output.stderr.as_slice());
        return Err(lsof_failure_message(text.as_str()));
    }
    let text = decode_lossy(output.stdout.as_slice());
    parse_lsof(text.as_str())
}

// ---------------------------------------------------------------------------
// Laws
// ---------------------------------------------------------------------------

/// No row orders after a later one.
pub open spec fn rows_in_order(s: Seq<RowView>) -> bool {
    forall|i: int, j: int| 0 <= i < j < s.len() ==> !row_less(#[trigger] s[j], #[trigger] s[i])
}

/// No two rows share a pid and a port.
pub open spec fn unique_pid_port(s: Seq<RowView>) -> bool {
    forall|i: int, j: int|
        0 <= i < j < s.len() ==> !((#[trigger] s[i]).pid == (#[trigger] s[j]).pid && s[i].port
            == s[j].port)
}

/// No row is marked new.
pub open spec fn none_new(s: Seq<RowView>) -> bool {
    forall|i: int| 0 <= i < s.len() ==> !(#[trigger] s[i]).is_new
}

proof fn lemma_row_less_irreflexive(a: RowView)
    ensures
        !row_less(a, a),
{
    lemma_lex_irreflexive(a.process);
}

proof fn lemma_row_less_transitive(a: RowView, b: RowView, c: RowView)
    requires
        row_less(a, b),
        row_less(b, c),
    ensures
        row_less(a, c),
{
    if a.port == b.port && b.port == c.port {
        if lex_less(a.process, b.process) && lex_less(b.process, c.process) {
            lemma_lex_transitive(a.process, b.process, c.process);
        }
    }
}

/// The order of rows is a strict order in which two rows are unordered
/// exactly when they share port, process name and pid.
pub proof fn law_row_order(a: RowView, b: RowView, c: RowView)
    ensures
        !row_less(a, a),
        row_less(a, b) ==> !row_less(b, a),
        row_less(a, b) && row_less(b, c) ==> row_less(a, c),
        !row_less(a, b) && !row_less(b, a) <==> (a.port == b.port && a.process == b.process
            && a.pid == b.pid),
{
    lemma_row_less_irreflexive(a);
    lemma_lex_trichotomy(a.process, b.process);
    if row_less(a, b) && row_less(b, c) {
        lemma_row_less_transitive(a, b, c);
    }
    if a.port == b.port && a.process == b.process && a.pid == b.pid {
        lemma_lex_irreflexive(a.process);
    }
}

/// Where `insert_sorted` puts `x`.
pub open spec fn insert_pos(x: RowView, s: Seq<RowView>) -> nat
    decreases s.len(),
{
    if s.len() == 0 || row_less(x, s[0]) {
        0
    } else {
        1 + insert_pos(x, s.drop_first())
    }
}

proof fn lemma_insert_pos(x: RowView, s: Seq<RowView>)
    ensures
        insert_pos(x, s) <= s.len(),
        insert_sorted(x, s) == s.insert(insert_pos(x, s) as int, x),
        forall|k: int| 0 <= k < insert_pos(x, s) ==> !row_less(x, #[trigger] s[k]),
        insert_pos(x, s) < s.len() ==> row_less(x, s[insert_pos(x, s) as int]),
    decreases s.len(),
{
    if s.len() == 0 {
        assert(s.insert(0, x) == seq![x]);
    } else if row_less(x, s[0]) {
        assert(s.insert(0, x) == seq![x] + s);
    } else {
        let rest = s.drop_first();
        lemma_insert_pos(x, rest);
        let p = insert_pos(x, rest) as int;
        assert(seq![s[0]] + rest.insert(p, x) == s.insert(p + 1, x));
        assert forall|k: int| 0 <= k < p + 1 implies !row_less(x, #[trigger] s[k]) by {
            if k > 0 {
                assert(s[k] == rest[k - 1]);
            }
        }
    }
}

proof fn lemma_insert_keeps_order(x: RowView, s: Seq<RowView>)
    requires
        rows_in_order(s),
    ensures
        rows_in_order(insert_sorted(x, s)),
{
    lemma_insert_pos(x, s);
    let p = insert_pos(x, s) as int;
    let r = insert_sorted(x, s);
    assert forall|i: int, j: int| 0 <= i < j < r.len() implies !row_less(
        #[trigger] r[j],
        #[trigger] r[i],
    ) by {
        if j < p {
            assert(r[i] == s[i] && r[j] == s[j]);
        } else if j == p {
            assert(r[i] == s[i] && r[j] == x);
        } else if i < p {
            assert(r[i] == s[i] && r[j] == s[j - 1]);
            if row_less(s[j - 1], s[i]) {
            }
        } else if i == p {
            assert(r[i] == x && r[j] == s[j - 1]);
            if row_less(s[j - 1], x) {
                lemma_row_less_transitive(s[j - 1], x, s[p]);
                if j - 1 == p {
                    lemma_row_less_irreflexive(s[p]);
                }
            }
        } else {
            assert(r[i] == s[i - 1] && r[j] == s[j - 1]);
        }
    }
}

/// Sorted rows are in order.
pub proof fn law_sorted_rows_in_order(s: Seq<RowView>)
    ensures
        rows_in_order(sorted_rows(s)),
    decreases s.len(),
{
    if s.len() > 0 {
        law_sorted_rows_in_order(s.drop_last());
        lemma_insert_keeps_order(s.last(), sorted_rows(s.drop_last()));
    }
}

/// Sorting keeps exactly the rows it was given.
pub proof fn law_sorted_rows_permutation(s: Seq<RowView>)
    ensures
        sorted_rows(s).to_multiset() == s.to_multiset(),
    decreases s.len(),
{
    broadcast use vstd::seq_lib::group_to_multiset_ensures;

    if s.len() > 0 {
        law_sorted_rows_permutation(s.drop_last());
        lemma_insert_pos(s.last(), sorted_rows(s.drop_last()));
        assert(s.drop_last().push(s.last()) == s);
    } else {
        assert(sorted_rows(s) == s);
    }
}

/// Rows already in order are left as they are; so sorting twice is sorting
/// once.
pub proof fn law_sort_idempotent(s: Seq<RowView>)
    ensures
        rows_in_order(s) ==> sorted_rows(s) == s,
        sorted_rows(sorted_rows(s)) == sorted_rows(s),
{
    if rows_in_order(s) {
        lemma_in_order_unchanged(s);
    }
    law_sorted_rows_in_order(s);
    lemma_in_order_unchanged(sorted_rows(s));
}

proof fn lemma_in_order_unchanged(s: Seq<RowView>)
    requires
        rows_in_order(s),
    ensures
        sorted_rows(s) == s,
    decreases s.len(),
{
    if s.len() > 0 {
        let init = s.drop_last();
        assert(rows_in_order(init)) by {
            assert forall|i: int, j: int| 0 <= i < j < init.len() implies !row_less(
                #[trigger] init[j],
                #[trigger] init[i],
            ) by {
                assert(init[i] == s[i] && init[j] == s[j]);
            }
        }
        lemma_in_order_unchanged(init);
        lemma_insert_pos(s.last(), init);
        if insert_pos(s.last(), init) < init.len() {
            let p = insert_pos(s.last(), init) as int;
            assert(init[p] == s[p]);
        }
        assert(init.insert(init.len() as int, s.last()) == s);
    } else {
        assert(sorted_rows(s) == s);
    }
}

proof fn lemma_insert_keeps_unique_old(x: RowView, s: Seq<RowView>)
    requires
        unique_pid_port(s),
        none_new(s),
        !x.is_new,
        !has_pid_port(s, x.pid, x.port),
    ensures
        unique_pid_port(insert_sorted(x, s)),
        none_new(insert_sorted(x, s)),
{
    lemma_insert_pos(x, s);
    let p = insert_pos(x, s) as int;
    let r = insert_sorted(x, s);
    assert forall|i: int, j: int| 0 <= i < j < r.len() implies !((#[trigger] r[i]).pid == (
    #[trigger] r[j]).pid && r[i].port == r[j].port) by {
        if j < p {
            assert(r[i] == s[i] && r[j] == s[j]);
        } else if j == p {
            assert(r[i] == s[i] && r[j] == x);
        } else if i < p {
            assert(r[i] == s[i] && r[j] == s[j - 1]);
        } else if i == p {
            assert(r[i] == x && r[j] == s[j - 1]);
        } else {
            assert(r[i] == s[i - 1] && r[j] == s[j - 1]);
        }
    }
    assert forall|i: int| 0 <= i < r.len() implies !(#[trigger] r[i]).is_new by {
        if i < p {
            assert(r[i] == s[i]);
        } else if i > p {
            assert(r[i] == s[i - 1]);
        }
    }
}

proof fn lemma_sorted_rows_members(s: Seq<RowView>, pid: u32, port: u16)
    ensures
        has_pid_port(sorted_rows(s), pid, port) == has_pid_port(s, pid, port),
{
    broadcast use vstd::seq_lib::group_to_multiset_ensures;

    law_sorted_rows_permutation(s);
    let t = sorted_rows(s);
    if has_pid_port(t, pid, port) {
        let i = choose|i: int| 0 <= i < t.len() && (#[trigger] t[i]).pid == pid && t[i].port == port;
        assert(t.contains(t[i]));
        assert(t.to_multiset().count(t[i]) > 0);
        assert(s.contains(t[i]));
    }
    if has_pid_port(s, pid, port) {
        let i = choose|i: int| 0 <= i < s.len() && (#[trigger] s[i]).pid == pid && s[i].port == port;
        assert(s.contains(s[i]));
        assert(s.to_multiset().count(s[i]) > 0);
        assert(t.contains(s[i]));
    }
}

proof fn lemma_sorted_rows_unique_old(s: Seq<RowView>)
    requires
        unique_pid_port(s),
        none_new(s),
    ensures
        unique_pid_port(sorted_rows(s)),
        none_new(sorted_rows(s)),
    decreases s.len(),
{
    if s.len() > 0 {
        let init = s.drop_last();
        assert(unique_pid_port(init)) by {
            assert forall|i: int, j: int| 0 <= i < j < init.len() implies !((#[trigger] init[i]).pid
                == (#[trigger] init[j]).pid && init[i].port == init[j].port) by {
                assert(init[i] == s[i] && init[j] == s[j]);
            }
        }
        assert(none_new(init)) by {
            assert forall|i: int| 0 <= i < init.len() implies !(#[trigger] init[i]).is_new by {
                assert(init[i] == s[i]);
            }
        }
        lemma_sorted_rows_unique_old(init);
        lemma_sorted_rows_members(init, s.last().pid, s.last().port);
        assert(!has_pid_port(init, s.last().pid, s.last().port)) by {
            if has_pid_port(init, s.last().pid, s.last().port) {
                let i = choose|i: int|
                    0 <= i < init.len() && (#[trigger] init[i]).pid == s.last().pid && init[i].port
                        == s.last().port;
                assert(init[i] == s[i]);
                assert(s[s.len() - 1] == s.last());
            }
        }
        assert(!s[s.len() - 1].is_new);
        lemma_insert_keeps_unique_old(s.last(), sorted_rows(init));
    }
}

proof fn lemma_rows_of_lines_unique_old(ls: Seq<Seq<char>>)
    ensures
        unique_pid_port(rows_of_lines(ls)),
        none_new(rows_of_lines(ls)),
    decreases ls.len(),
{
    if ls.len() > 0 {
        lemma_rows_of_lines_unique_old(ls.drop_last());
        let acc = rows_of_lines(ls.drop_last());
        let r = rows_of_lines(ls);
        match row_of_columns(words(ls.last())) {
            Some(x) => if !has_pid_port(acc, x.pid, x.port) {
                assert(r == acc.push(x));
                assert forall|i: int, j: int| 0 <= i < j < r.len() implies !((#[trigger] r[i]).pid
                    == (#[trigger] r[j]).pid && r[i].port == r[j].port) by {
                    if j == acc.len() {
                        assert(r[i] == acc[i]);
                    } else {
                        assert(r[i] == acc[i] && r[j] == acc[j]);
                    }
                }
                assert forall|i: int| 0 <= i < r.len() implies !(#[trigger] r[i]).is_new by {
                    if i < acc.len() {
                        assert(r[i] == acc[i]);
                    }
                }
            },
            None => {},
        }
    }
}

/// The rows parsed from lsof output come in order, name each (pid, port)
/// pair at most once, and none is marked new.
pub proof fn law_lsof_rows(s: Seq<char>)
    ensures
        rows_in_order(lsof_rows(s)),
        unique_pid_port(lsof_rows(s)),
        none_new(lsof_rows(s)),
{
    law_sorted_rows_in_order(rows_of_lines(lines(s)));
    lemma_rows_of_lines_unique_old(lines(s));
    lemma_sorted_rows_unique_old(rows_of_lines(lines(s)));
}

/// Empty output is valid UTF-8 and describes no rows; so a run that wrote
/// nothing gives no rows, whether lsof succeeded or failed silently.
pub proof fn law_no_output_no_rows()
    ensures
        vstd::utf8::valid_utf8(Seq::<u8>::empty()),
        vstd::utf8::decode_utf8(Seq::<u8>::empty()) == Seq::<char>::empty(),
        lsof_rows(Seq::<char>::empty()) == Seq::<RowView>::empty(),
{
    assert(lines(Seq::<char>::empty()) == Seq::<Seq<char>>::empty());
    assert(rows_of_lines(Seq::<Seq<char>>::empty()) == Seq::<RowView>::empty());
}

/// A row is marked new exactly when no row of the previous scan had its
/// port; so rows marked against their own ports are all old.
pub proof fn law_marking(r: RowView, previous: Seq<RowView>, rows: Seq<RowView>)
    ensures
        marked(r, ports_of(previous)).is_new <==> forall|i: int|
            0 <= i < previous.len() ==> (#[trigger] previous[i]).port != r.port,
        forall|i: int|
            0 <= i < rows.len() ==> !(#[trigger] marked(rows[i], ports_of(rows))).is_new,
{
    assert forall|i: int| 0 <= i < rows.len() implies !(#[trigger] marked(
        rows[i],
        ports_of(rows),
    )).is_new by {
        assert(ports_of(rows).contains(rows[i].port));
    }
}

} // verus!
