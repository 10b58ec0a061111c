//! Workspace files: the AppleScript that reopens a saved Ghostty window, and
//! the reader that recovers each tab's title and working directory from it.
use vstd::prelude::*;

use crate::text;

verus! {

/// One tab of the front Ghostty window, as captured for saving.
#[derive(Clone, Debug)]
pub struct TabRow {
    pub working_dir: String,
    pub title: String,
}

/// One tab of a saved workspace, as the launcher previews it.
#[derive(Clone, Debug)]
pub struct WorkspaceTab {
    pub title: String,
    pub working_dir: Option<String>,
}

/// What the reader has gathered for one tab slot so far.
#[derive(Debug)]
pub struct ParsedWorkspaceTab {
    pub working_dir: Option<String>,
    pub title: Option<String>,
}

/// What one line of a workspace script tells the reader.
pub enum LineEffect {
    WorkingDir(nat, Seq<char>),
    Title(nat, Seq<char>),
    Nothing,
}

// ---------------------------------------------------------------------------
// Specifications
// ---------------------------------------------------------------------------

pub open spec fn row_view(r: TabRow) -> (Seq<char>, Seq<char>) {
    (r.working_dir@, r.title@)
}

pub open spec fn rows_view(rows: Seq<TabRow>) -> Seq<(Seq<char>, Seq<char>)> {
    Seq::new(rows.len(), |i: int| row_view(rows[i]))
}

pub open spec fn slot_view(p: ParsedWorkspaceTab) -> (Option<Seq<char>>, Option<Seq<char>>) {
    (text::opt_chars(p.working_dir), text::opt_chars(p.title))
}

pub open spec fn slots_view(v: Seq<ParsedWorkspaceTab>) -> Seq<
    (Option<Seq<char>>, Option<Seq<char>>),
> {
    Seq::new(v.len(), |i: int| slot_view(v[i]))
}

pub open spec fn tab_view(t: WorkspaceTab) -> (Seq<char>, Option<Seq<char>>) {
    (t.title@, text::opt_chars(t.working_dir))
}

pub open spec fn tabs_view(v: Seq<WorkspaceTab>) -> Seq<(Seq<char>, Option<Seq<char>>)> {
    Seq::new(v.len(), |i: int| tab_view(v[i]))
}

/// One character as it appears inside an AppleScript string literal.
pub open spec fn escape_char(c: char) -> Seq<char> {
    if c == '\\' {
        seq!['\\', '\\']
    } else if c == '"' {
        seq!['\\', '"']
    } else {
        seq![c]
    }
}

/// Text escaped for an AppleScript string literal: backslashes doubled, quotes escaped.
pub open spec fn apple_escaped(s: Seq<char>) -> Seq<char>
    decreases s.len(),
{
    if s.len() == 0 {
        seq![]
    } else {
        escape_char(s[0]) + apple_escaped(s.drop_first())
    }
}

/// Reading the inside of a string literal up to its closing quote: the text read and what
/// follows the quote, or `None` when no closing quote comes. `escaped` says that the previous
/// character was an unconsumed backslash.
pub open spec fn scan_quoted(s: Seq<char>, escaped: bool) -> Option<(Seq<char>, Seq<char>)>
    decreases s.len(),
{
    if s.len() == 0 {
        None
    } else if escaped {
        match scan_quoted(s.drop_first(), false) {
            Some((v, r)) => Some((seq![s[0]] + v, r)),
            None => None,
        }
    } else if s[0] == '\\' {
        scan_quoted(s.drop_first(), true)
    } else if s[0] == '"' {
        Some((seq![], s.drop_first()))
    } else {
        match scan_quoted(s.drop_first(), false) {
            Some((v, r)) => Some((seq![s[0]] + v, r)),
            None => None,
        }
    }
}

/// A string literal at the very start of `v`: its text and what follows it.
pub open spec fn apple_string_prefix(v: Seq<char>) -> Option<(Seq<char>, Seq<char>)> {
    if v.len() > 0 && v[0] == '"' {
        scan_quoted(v.drop_first(), false)
    } else {
        None
    }
}

/// A string literal after optional leading whitespace.
pub open spec fn apple_string(v: Seq<char>) -> Option<Seq<char>> {
    match apple_string_prefix(text::trim_start(v)) {
        Some((s, _)) => Some(s),
        None => None,
    }
}

/// Leading decimal digits that fit a `usize`, and what follows them.
pub open spec fn split_digits_spec(v: Seq<char>) -> Option<(nat, Seq<char>)> {
    let k = text::digits_prefix_len(v);
    if k == 0 || text::digits_value(v.take(k as int)) > usize::MAX {
        None
    } else {
        Some((text::digits_value(v.take(k as int)), v.skip(k as int)))
    }
}

/// `prefix`, an index, `marker`, then a string literal.
pub open spec fn indexed_assignment(line: Seq<char>, prefix: Seq<char>, marker: Seq<char>) -> Option<
    (nat, Seq<char>),
> {
    if !text::is_prefix(prefix, line) {
        None
    } else {
        match split_digits_spec(line.skip(prefix.len() as int)) {
            None => None,
            Some((index, rest)) => if !text::is_prefix(marker, rest) {
                None
            } else {
                match apple_string(rest.skip(marker.len() as int)) {
                    Some(v) => Some((index, v)),
                    None => None,
                }
            },
        }
    }
}

pub open spec fn working_dir_prefix() -> Seq<char> {
    "set initial working directory of cfg"@
}

pub open spec fn assignment_marker() -> Seq<char> {
    " to "@
}

pub open spec fn title_prefix() -> Seq<char> {
    "perform action \"set_tab_title:"@
}

pub open spec fn title_marker() -> Seq<char> {
    " on term"@
}

/// A tab-title action: the tab's index and its title.
pub open spec fn title_assignment(line: Seq<char>) -> Option<(nat, Seq<char>)> {
    if !text::is_prefix(title_prefix(), line) {
        None
    } else {
        match scan_quoted(line.skip(title_prefix().len() as int), false) {
            None => None,
            Some((title, after)) => if !text::is_prefix(title_marker(), after) {
                None
            } else {
                match split_digits_spec(after.skip(title_marker().len() as int)) {
                    Some((index, _)) => Some((index, title)),
                    None => None,
                }
            },
        }
    }
}

/// What a script line tells the reader, after trimming it.
pub open spec fn line_effect(line: Seq<char>) -> LineEffect {
    let t = text::trim(line);
    match indexed_assignment(t, working_dir_prefix(), assignment_marker()) {
        Some((i, v)) => LineEffect::WorkingDir(i, v),
        None => match title_assignment(t) {
            Some((i, v)) => LineEffect::Title(i, v),
            None => LineEffect::Nothing,
        },
    }
}

/// No line of the script names tab 0 (the reader counts tabs from 1).
pub open spec fn indices_positive(ls: Seq<Seq<char>>) -> bool {
    forall|k: int|
        0 <= k < ls.len() ==> match #[trigger] line_effect(ls[k]) {
            LineEffect::WorkingDir(i, _) => i > 0,
            LineEffect::Title(i, _) => i > 0,
            LineEffect::Nothing => true,
        }
}

/// The slots extended with empty ones up to `n`.
pub open spec fn grow_slots(st: Seq<(Option<Seq<char>>, Option<Seq<char>>)>, n: nat) -> Seq<
    (Option<Seq<char>>, Option<Seq<char>>),
> {
    if st.len() < n {
        st + Seq::new((n - st.len()) as nat, |k: int| (None, None))
    } else {
        st
    }
}

pub open spec fn read_step(st: Seq<(Option<Seq<char>>, Option<Seq<char>>)>, line: Seq<char>) -> Seq<
    (Option<Seq<char>>, Option<Seq<char>>),
> {
    match line_effect(line) {
        LineEffect::WorkingDir(i, v) => {
            let g = grow_slots(st, i);
            g.update(i - 1, (Some(v), g[i - 1].1))
        },
        LineEffect::Title(i, v) => {
            let g = grow_slots(st, i);
            g.update(i - 1, (g[i - 1].0, Some(v)))
        },
        LineEffect::Nothing => st,
    }
}

/// The slots gathered from the lines, in order.
pub open spec fn read_slots(ls: Seq<Seq<char>>) -> Seq<(Option<Seq<char>>, Option<Seq<char>>)>
    decreases ls.len(),
{
    if ls.len() == 0 {
        seq![]
    } else {
        read_step(read_slots(ls.drop_last()), ls.last())
    }
}

/// The last path component, as `Path::file_name` gives it for a path written as text.
pub uninterp spec fn file_name_of(path: Seq<char>) -> Option<Seq<char>>;

/// The text after the last '/' of a path (the whole path when it has none).
pub open spec fn after_last_slash(p: Seq<char>) -> Seq<char>
    decreases p.len(),
{
    if p.len() == 0 {
        p
    } else if p.last() == '/' {
        seq![]
    } else {
        after_last_slash(p.drop_last()).push(p.last())
    }
}

/// A path whose last component is plainly the text after its last '/': it holds no '\\' or
/// ':' (which some platforms read as separators or prefixes), and that text is neither empty
/// (a trailing '/'), "." nor "..".
pub open spec fn plain_last_component(p: Seq<char>) -> bool {
    let last = after_last_slash(p);
    &&& !text::has_char(p, '\\')
    &&& !text::has_char(p, ':')
    &&& last.len() > 0
    &&& last != "."@
    &&& last != ".."@
}

/// The last component of a path: the text after its last '/' for a plain path, else what
/// `Path::file_name` gives.
pub open spec fn file_name_text(p: Seq<char>) -> Option<Seq<char>> {
    if plain_last_component(p) {
        Some(after_last_slash(p))
    } else {
        file_name_of(p)
    }
}

/// A tab's name chosen from its directory's file name, or the directory itself.
pub open spec fn name_from_file_name(working_dir: Seq<char>, file_name: Option<Seq<char>>) -> Seq<
    char,
> {
    match file_name {
        Some(f) => if f.len() > 0 {
            f
        } else {
            working_dir
        },
        None => working_dir,
    }
}

/// The name shown for a tab with no title.
pub open spec fn fallback_name(index: nat, working_dir: Option<Seq<char>>, home: Seq<char>) -> Seq<
    char,
> {
    let wd = match working_dir {
        Some(w) => text::trim(w),
        None => seq![],
    };
    if wd.len() == 0 {
        "Tab "@ + text::decimal(index)
    } else if wd == home {
        "~"@
    } else {
        name_from_file_name(wd, file_name_text(wd))
    }
}

pub open spec fn nonempty(o: Option<Seq<char>>) -> Option<Seq<char>> {
    match o {
        Some(s) => if s.len() > 0 {
            Some(s)
        } else {
            None
        },
        None => None,
    }
}

/// The tab previewed for slot `k`.
pub open spec fn tab_from_slot(
    k: nat,
    slot: (Option<Seq<char>>, Option<Seq<char>>),
    home: Seq<char>,
) -> (Seq<char>, Option<Seq<char>>) {
    let title = match nonempty(slot.1) {
        Some(t) => t,
        None => fallback_name(k + 1, slot.0, home),
    };
    (title, nonempty(slot.0))
}

/// The tabs a workspace script describes.
pub open spec fn workspace_tabs(script: Seq<char>, home: Seq<char>) -> Seq<
    (Seq<char>, Option<Seq<char>>),
> {
    let st = read_slots(text::lines(script));
    Seq::new(st.len(), |k: int| tab_from_slot(k as nat, st[k], home))
}

pub open spec fn indent(s: Seq<char>) -> Seq<char> {
    "    "@ + s
}

pub open spec fn cfg_line(d: Seq<char>) -> Seq<char> {
    indent("set cfg"@ + d + " to new surface configuration"@)
}

pub open spec fn working_dir_line(d: Seq<char>, working_dir: Seq<char>) -> Seq<char> {
    indent(working_dir_prefix() + d + assignment_marker() + seq!['"'] + apple_escaped(working_dir)
        + seq!['"'])
}

pub open spec fn window_lines(n: nat, d: Seq<char>) -> Seq<Seq<char>> {
    if n == 1 {
        seq![
            indent("set win to new window with configuration cfg"@ + d),
            indent("set term"@ + d + " to focused terminal of selected tab of win"@),
        ]
    } else {
        seq![
            indent("set tab"@ + d + " to new tab in win with configuration cfg"@ + d),
            indent("set term"@ + d + " to focused terminal of tab"@ + d),
        ]
    }
}

pub open spec fn title_line(d: Seq<char>, title: Seq<char>) -> Seq<char> {
    indent(title_prefix() + apple_escaped(title) + seq!['"'] + title_marker() + d)
}

/// The lines that open tab `n` (counted from 1) with `row`'s directory and title.
pub open spec fn tab_block(n: nat, row: (Seq<char>, Seq<char>)) -> Seq<Seq<char>> {
    let d = text::decimal(n);
    seq![seq![], cfg_line(d), working_dir_line(d, row.0)] + window_lines(n, d) + if row.1.len()
        > 0 {
        seq![title_line(d, row.1)]
    } else {
        seq![]
    }
}

pub open spec fn tab_blocks(rows: Seq<(Seq<char>, Seq<char>)>) -> Seq<Seq<char>>
    decreases rows.len(),
{
    if rows.len() == 0 {
        seq![]
    } else {
        tab_blocks(rows.drop_last()) + tab_block(rows.len() as nat, rows.last())
    }
}

pub open spec fn script_lines(rows: Seq<(Seq<char>, Seq<char>)>) -> Seq<Seq<char>> {
    seq!["tell application \"Ghostty\""@, indent("activate"@)] + tab_blocks(rows) + seq![
        "end tell"@,
    ]
}

/// The script's lines with `extra` lines after the tabs' blocks.
pub open spec fn script_lines_with(rows: Seq<(Seq<char>, Seq<char>)>, extra: Seq<Seq<char>>) -> Seq<Seq<char>> {
    seq!["tell application \"Ghostty\""@, indent("activate"@)] + tab_blocks(rows) + extra + seq![
        "end tell"@,
    ]
}

/// The workspace script for the captured tabs, with `extra` lines after the tabs' blocks.
pub open spec fn workspace_script_with(rows: Seq<(Seq<char>, Seq<char>)>, extra: Seq<Seq<char>>) -> Seq<char> {
    text::render_lines(script_lines_with(rows, extra))
}

/// The workspace script for the captured tabs.
pub open spec fn workspace_script(rows: Seq<(Seq<char>, Seq<char>)>) -> Seq<char> {
    text::render_lines(script_lines(rows))
}

/// The tabs captured from the tab listing: one per line, "directory<TAB>title", an empty
/// directory standing for `home`.
pub open spec fn captured_row(line: Seq<char>, home: Seq<char>) -> (Seq<char>, Seq<char>) {
    let i = text::first_index(line, '\t');
    let wd = if i < 0 {
        text::trim(line)
    } else {
        text::trim(line.take(i))
    };
    let title = if i < 0 {
        seq![]
    } else {
        text::trim(line.skip(i + 1))
    };
    (if wd.len() == 0 {
        home
    } else {
        wd
    }, title)
}

pub open spec fn captured_rows(ls: Seq<Seq<char>>, home: Seq<char>) -> Seq<(Seq<char>, Seq<char>)> {
    Seq::new(ls.len(), |i: int| captured_row(ls[i], home))
}

// ---------------------------------------------------------------------------
// Lemmas
// ---------------------------------------------------------------------------

pub proof fn lemma_escape_concat(a: Seq<char>, b: Seq<char>)
    ensures
        apple_escaped(a + b) == apple_escaped(a) + apple_escaped(b),
    decreases a.len(),
{
    if a.len() == 0 {
        assert(a + b =~= b);
        assert(apple_escaped(a) + apple_escaped(b) =~= apple_escaped(b));
    } else {
        lemma_escape_concat(a.drop_first(), b);
        assert((a + b).drop_first() =~= a.drop_first() + b);
        assert((a + b)[0] == a[0]);
        assert(apple_escaped(a + b) =~= escape_char(a[0]) + (apple_escaped(a.drop_first())
            + apple_escaped(b)));
    }
}

/// An escaped text followed by a closing quote reads back as the text.
pub proof fn lemma_scan_escaped(s: Seq<char>, rest: Seq<char>)
    ensures
        scan_quoted(apple_escaped(s) + seq!['"'] + rest, false) == Some((s, rest)),
    decreases s.len(),
{
    let t = apple_escaped(s) + seq!['"'] + rest;
    if s.len() == 0 {
        assert(t =~= seq!['"'] + rest);
        assert(t.drop_first() =~= rest);
    } else {
        let c = s[0];
        let tail = apple_escaped(s.drop_first()) + seq!['"'] + rest;
        lemma_scan_escaped(s.drop_first(), rest);
        assert(apple_escaped(s) + seq!['"'] + rest =~= escape_char(c) + (apple_escaped(
            s.drop_first(),
        ) + seq!['"'] + rest));
        assert(t =~= escape_char(c) + tail);
        assert(seq![c] + s.drop_first() =~= s);
        if c == '\\' || c == '"' {
            assert(t[0] == '\\');
            assert(t.drop_first().drop_first() =~= tail);
            assert(t.drop_first()[0] == c);
            assert(scan_quoted(t.drop_first(), true) == Some((seq![c] + s.drop_first(), rest)));
        } else {
            assert(t[0] == c);
            assert(t.drop_first() =~= tail);
        }
    }
}

/// Escaping text and wrapping it in quotes makes a string literal that reads back as the
/// text, whatever follows the closing quote.
pub proof fn law_apple_string_round_trip(s: Seq<char>, rest: Seq<char>)
    ensures
        apple_string_prefix(seq!['"'] + apple_escaped(s) + seq!['"'] + rest) == Some((s, rest)),
{
    let v = seq!['"'] + apple_escaped(s) + seq!['"'] + rest;
    assert(v.drop_first() =~= apple_escaped(s) + seq!['"'] + rest);
    lemma_scan_escaped(s, rest);
}

// ---------------------------------------------------------------------------
// Executable functions
// ---------------------------------------------------------------------------

pub(crate) fn escape_chars(v: &Vec<char>) -> (r: Vec<char>)
    ensures
        r@ == apple_escaped(v@),
{
    let mut out: Vec<char> = Vec::new();
    for i in 0..v.len()
        invariant
            out@ == apple_escaped(v@.take(i as int)),
    {
        let c = v[i];
        if c == '\\' {
            out.push('\\');
            out.push('\\');
        } else if c == '"' {
            out.push('\\');
            out.push('"');
        } else {
            out.push(c);
        }
        proof {
            lemma_escape_concat(v@.take(i as int), seq![c]);
            assert(v@.take(i + 1) =~= v@.take(i as int) + seq![c]);
            assert(apple_escaped(seq![c]) =~= escape_char(c)) by {
                assert(seq![c].drop_first() =~= Seq::<char>::empty());
                assert(apple_escaped(Seq::<char>::empty()) =~= Seq::<char>::empty());
                assert(apple_escaped(seq![c]) == escape_char(c) + apple_escaped(seq![c].drop_first()));
            }
        }
    }
    assert(v@.take(v.len() as int) =~= v@);
    out
}

/// Escapes text for an AppleScript string literal: backslashes are doubled and double
/// quotes get a backslash.
pub fn apple_escape(value: &str) -> (r: String)
    ensures
        r@ == apple_escaped(value@),
{
    let v = text::to_chars(value);
    text::from_chars(&escape_chars(&v))
}

fn apple_string_prefix_chars(v: &Vec<char>) -> (r: Option<(Vec<char>, Vec<char>)>)
    ensures
        match r {
            Some((a, b)) => apple_string_prefix(v@) == Some((a@, b@)),
            None => apple_string_prefix(v@) is None,
        },
{
    if v.len() == 0 || v[0] != '"' {
        return None;
    }
    let ghost body = v@.drop_first();
    let mut escaped = false;
    let mut out: Vec<char> = Vec::new();
    let mut i: usize = 1;
    assert(v@.skip(1) =~= body);
    while i < v.len()
        invariant
            1 <= i <= v.len(),
            v@.len() > 0 && v@[0] == '"',
            body == v@.drop_first(),
            scan_quoted(body, false) == match scan_quoted(v@.skip(i as int), escaped) {
                Some((a, b)) => Some((out@ + a, b)),
                None => None::<(Seq<char>, Seq<char>)>,
            },
        decreases v.len() - i,
    {
        let ch = v[i];
        let ghost cur = v@.skip(i as int);
        assert(cur.drop_first() =~= v@.skip(i + 1));
        assert(cur[0] == ch);
        if escaped {
            let ghost prev = out@;
            out.push(ch);
            escaped = false;
            proof {
                match scan_quoted(v@.skip(i + 1), false) {
                    Some((a, b)) => {
                        assert(out@ + a =~= prev + (seq![ch] + a));
                    },
                    None => {},
                }
            }
        } else if ch == '\\' {
            escaped = true;
        } else if ch == '"' {
            assert(scan_quoted(cur, false) == Some((Seq::<char>::empty(), cur.drop_first())));
            let rest = text::slice(v, i + 1, v.len());
            assert(rest@ =~= cur.drop_first());
            assert(out@ + Seq::<char>::empty() =~= out@);
            assert(scan_quoted(body, false) == Some((out@, rest@)));
            assert(v@.len() > 0 && v@[0] == '"');
            assert(apple_string_prefix(v@) == scan_quoted(v@.drop_first(), false));
            return Some((out, rest));
        } else {
            let ghost prev = out@;
            out.push(ch);
            proof {
                match scan_quoted(v@.skip(i + 1), false) {
                    Some((a, b)) => {
                        assert(out@ + a =~= prev + (seq![ch] + a));
                    },
                    None => {},
                }
            }
        }
        i += 1;
    }
    None
}

/// Reads a string literal at the start of `value`: its text, and what follows the closing
/// quote. `None` when `value` does not start with a quote or the quote is never closed.
pub fn parse_apple_string_prefix(value: &str) -> (r: Option<(String, String)>)
    ensures
        match r {
            Some((a, b)) => apple_string_prefix(value@) == Some((a@, b@)),
            None => apple_string_prefix(value@) is None,
        },
{
    let v = text::to_chars(value);
    match apple_string_prefix_chars(&v) {
        Some((a, b)) => Some((text::from_chars(&a), text::from_chars(&b))),
        None => None,
    }
}

fn apple_string_chars(v: &Vec<char>) -> (r: Option<Vec<char>>)
    ensures
        match r {
            Some(a) => apple_string(v@) == Some(a@),
            None => apple_string(v@) is None,
        },
{
    let t = text::trim_start_chars(v);
    match apple_string_prefix_chars(&t) {
        Some((a, _)) => Some(a),
        None => None,
    }
}

/// Reads a string literal after optional leading whitespace.
pub fn parse_apple_string(value: &str) -> (r: Option<String>)
    ensures
        text::opt_chars(r) == apple_string(value@),
{
    let v = text::to_chars(value);
    match apple_string_chars(&v) {
        Some(a) => Some(text::from_chars(&a)),
        None => None,
    }
}

pub(crate) fn split_digits_chars(v: &Vec<char>) -> (r: Option<(usize, Vec<char>)>)
    ensures
        match r {
            Some((n, rest)) => split_digits_spec(v@) == Some((n as nat, rest@)),
            None => split_digits_spec(v@) is None,
        },
{
    let k = text::digits_len_from(v, 0);
    assert(v@.skip(0) =~= v@);
    if k == 0 {
        return None;
    }
    let digits = text::slice(v, 0, k);
    proof {
        text::lemma_digits_prefix_len(v@);
        assert(digits@ =~= v@.take(k as int));
    }
    match text::parse_digits(&digits) {
        Some(n) => {
            let rest = text::slice(v, k, v.len());
            assert(rest@ =~= v@.skip(k as int));
            Some((n, rest))
        },
        None => None,
    }
}

/// Splits leading decimal digits off `value`: their value and the text after them. `None`
/// when there are no leading digits or their value does not fit a `usize`.
pub fn split_digits(value: &str) -> (r: Option<(usize, String)>)
    ensures
        match r {
            Some((n, rest)) => split_digits_spec(value@) == Some((n as nat, rest@)),
            None => split_digits_spec(value@) is None,
        },
{
    let v = text::to_chars(value);
    match split_digits_chars(&v) {
        Some((n, rest)) => Some((n, text::from_chars(&rest))),
        None => None,
    }
}

fn indexed_assignment_chars(line: &Vec<char>, prefix: &str, marker: &str) -> (r: Option<
    (usize, Vec<char>),
>)
    ensures
        match r {
            Some((n, v)) => indexed_assignment(line@, prefix@, marker@) == Some((n as nat, v@)),
            None => indexed_assignment(line@, prefix@, marker@) is None,
        },
{
    let rest = match text::strip_prefix(line, prefix) {
        Some(r) => r,
        None => return None,
    };
    let (index, rest) = match split_digits_chars(&rest) {
        Some(p) => p,
        None => return None,
    };
    let value = match text::strip_prefix(&rest, marker) {
        Some(v) => v,
        None => return None,
    };
    match apple_string_chars(&value) {
        Some(s) => Some((index, s)),
        None => None,
    }
}

/// Reads `prefix`, a tab index, `marker`, then a string literal: the index and the text.
pub fn parse_indexed_assignment(line: &str, prefix: &str, marker: &str) -> (r: Option<
    (usize, String),
>)
    ensures
        match r {
            Some((n, v)) => indexed_assignment(line@, prefix@, marker@) == Some((n as nat, v@)),
            None => indexed_assignment(line@, prefix@, marker@) is None,
        },
{
    let v = text::to_chars(line);
    match indexed_assignment_chars(&v, prefix, marker) {
        Some((n, s)) => Some((n, text::from_chars(&s))),
        None => None,
    }
}

fn title_assignment_chars(line: &Vec<char>) -> (r: Option<(usize, Vec<char>)>)
    ensures
        match r {
            Some((n, v)) => title_assignment(line@) == Some((n as nat, v@)),
            None => title_assignment(line@) is None,
        },
{
    let rest = match text::strip_prefix(line, "perform action \"set_tab_title:") {
        Some(r) => r,
        None => return None,
    };
    let mut quoted: Vec<char> = Vec::new();
    quoted.push('"');
    text::extend(&mut quoted, &rest);
    assert(quoted@.drop_first() =~= rest@);
    let (title, after) = match apple_string_prefix_chars(&quoted) {
        Some(p) => p,
        None => return None,
    };
    let after_marker = match text::strip_prefix(&after, " on term") {
        Some(a) => a,
        None => return None,
    };
    match split_digits_chars(&after_marker) {
        Some((index, _)) => Some((index, title)),
        None => None,
    }
}

/// Reads a tab-title action line: the tab's index and its title.
pub fn parse_title_assignment(line: &str) -> (r: Option<(usize, String)>)
    ensures
        match r {
            Some((n, v)) => title_assignment(line@) == Some((n as nat, v@)),
            None => title_assignment(line@) is None,
        },
{
    let v = text::to_chars(line);
    match title_assignment_chars(&v) {
        Some((n, s)) => Some((n, text::from_chars(&s))),
        None => None,
    }
}

fn clone_opt(o: &Option<String>) -> (r: Option<String>)
    ensures
        text::opt_chars(r) == text::opt_chars(*o),
{
    match o {
        Some(s) => Some(s.clone()),
        None => None,
    }
}

/// Makes sure there are at least `index` slots, adding empty ones at the end.
pub fn ensure_tab_slot(tabs: &mut Vec<ParsedWorkspaceTab>, index: usize)
    ensures
        slots_view(final(tabs)@) == grow_slots(slots_view(old(tabs)@), index as nat),
{
    let ghost start = slots_view(tabs@);
    while tabs.len() < index
        invariant
            start.len() <= tabs.len(),
            start.len() < index ==> tabs.len() <= index,
            start.len() >= index ==> tabs.len() == start.len(),
            slots_view(tabs@) == start + Seq::new(
                (tabs.len() - start.len()) as nat,
                |k: int| (None::<Seq<char>>, None::<Seq<char>>),
            ),
        decreases index - tabs.len(),
    {
        let ghost before = slots_view(tabs@);
        tabs.push(ParsedWorkspaceTab { working_dir: None, title: None });
        assert(slots_view(tabs@) =~= before.push((None, None)));
        assert(slots_view(tabs@) =~= start + Seq::new(
            (tabs.len() - start.len()) as nat,
            |k: int| (None::<Seq<char>>, None::<Seq<char>>),
        ));
    }
    proof {
        if start.len() >= index as nat {
            assert(slots_view(tabs@) =~= start);
        }
    }
}

/// Names the tab from its directory's file name: that name when it is not empty, else the
/// directory itself.
pub fn name_from_file_name_of(working_dir: &str, file_name: Option<String>) -> (r: String)
    ensures
        r@ == name_from_file_name(working_dir@, text::opt_chars(file_name)),
{
    match file_name {
        Some(f) => if f.as_str().is_empty() {
            working_dir.to_owned()
        } else {
            f
        },
        None => working_dir.to_owned(),
    }
}

/// The last component of a path written as text: std's `Path::file_name`, read back as text.
/// Trusted: the contract claims that the result depends on the path's text alone (it is named
/// `file_name_of`), and that for a plain path (see `plain_last_component`) it is the text after
/// the last '/'; what it is for other paths (trailing separators, "." and ".." components,
/// platform prefixes) is left unsaid.
#[verifier::external_body]
fn path_file_name(path: &str) -> (r: Option<String>)
    ensures
        text::opt_chars(r) == file_name_of(path@),
        plain_last_component(path@) ==> text::opt_chars(r) == Some(after_last_slash(path@)),
{
    std::path::Path::new(path).file_name().and_then(|n| n.to_str()).map(|n| n.to_string())
}

/// The name shown for a tab with no title: "Tab <index>" without a directory, "~" for the
/// home directory, else the directory's last component (or the directory itself).
pub fn fallback_tab_name(index: usize, working_dir: Option<&str>, home: &str) -> (r: String)
    ensures
        r@ == fallback_name(
            index as nat,
            match working_dir {
                Some(w) => Some(w@),
                None => None,
            },
            home@,
        ),
{
    let wd: Vec<char> = match working_dir {
        Some(w) => text::trim_chars(&text::to_chars(w)),
        None => Vec::new(),
    };
    if wd.len() == 0 {
        let mut out = text::to_chars("Tab ");
        let d = text::decimal_chars(index);
        text::extend(&mut out, &d);
        return text::from_chars(&out);
    }
    let h = text::to_chars(home);
    if text::chars_eq(&wd, &h) {
        return "~".to_owned();
    }
    let wd_s = text::from_chars(&wd);
    let name = path_file_name(wd_s.as_str());
    name_from_file_name_of(wd_s.as_str(), name)
}

pub open spec fn positive_effect(e: LineEffect) -> bool {
    match e {
        LineEffect::WorkingDir(i, _) => i > 0,
        LineEffect::Title(i, _) => i > 0,
        LineEffect::Nothing => true,
    }
}

/// Whether some line of a workspace script names tab 0, which the reader cannot place.
pub fn script_names_tab_zero(script: &str) -> (r: bool)
    ensures
        r == !indices_positive(text::lines(script@)),
{
    let ls = text::split_lines(&text::to_chars(script));
    let ghost all = text::lines(script@);
    for i in 0..ls.len()
        invariant
            text::views(ls@) == all,
            all == text::lines(script@),
            forall|j: int| 0 <= j < i ==> positive_effect(#[trigger] line_effect(all[j])),
    {
        assert(text::views(ls@)[i as int] == ls@[i as int]@);
        let trimmed = text::trim_chars(&ls[i]);
        match indexed_assignment_chars(&trimmed, "set initial working directory of cfg", " to ") {
            Some((index, _)) => {
                if index == 0 {
                    assert(!positive_effect(line_effect(all[i as int])));
                    return true;
                }
            },
            None => match title_assignment_chars(&trimmed) {
                Some((index, _)) => {
                    if index == 0 {
                        assert(!positive_effect(line_effect(all[i as int])));
                        return true;
                    }
                },
                None => {},
            },
        }
        assert(positive_effect(line_effect(all[i as int])));
    }
    assert forall|k: int| 0 <= k < all.len() implies match #[trigger] line_effect(all[k]) {
        LineEffect::WorkingDir(i, _) => i > 0,
        LineEffect::Title(i, _) => i > 0,
        LineEffect::Nothing => true,
    } by {
        assert(positive_effect(line_effect(all[k])));
    }
    false
}

/// The tabs described by a workspace script: each tab's title (or a fallback name) and its
/// working directory. `home` is the user's home directory, shown as "~".
pub fn parse_workspace_tabs(script: &str, home: &str) -> (r: Vec<WorkspaceTab>)
    requires
        indices_positive(text::lines(script@)),
    ensures
        tabs_view(r@) == workspace_tabs(script@, home@),
{
    let v = text::to_chars(script);
    let ls = text::split_lines(&v);
    let ghost all = text::lines(script@);
    let mut tabs: Vec<ParsedWorkspaceTab> = Vec::new();
    assert(all.take(0) =~= Seq::<Seq<char>>::empty());
    assert(slots_view(tabs@) =~= read_slots(all.take(0)));
    for i in 0..ls.len()
        invariant
            text::views(ls@) == all,
            indices_positive(all),
            slots_view(tabs@) == read_slots(all.take(i as int)),
    {
        let trimmed = text::trim_chars(&ls[i]);
        let ghost line = all[i as int];
        assert(ls@[i as int]@ == line);
        assert(all.take(i + 1).drop_last() =~= all.take(i as int));
        assert(all.take(i + 1).last() == line);
        let ghost eff = line_effect(line);
        assert(match eff {
            LineEffect::WorkingDir(n, _) => n > 0,
            LineEffect::Title(n, _) => n > 0,
            LineEffect::Nothing => true,
        });
        match indexed_assignment_chars(&trimmed, "set initial working directory of cfg", " to ") {
            Some((index, working_dir)) => {
                assert(index > 0);
                ensure_tab_slot(&mut tabs, index);
                assert(tabs.len() >= index) by {
                    assert(slots_view(tabs@).len() == tabs@.len());
                }
                let ghost g = slots_view(tabs@);
                let title = clone_opt(&tabs[index - 1].title);
                tabs.set(index - 1, ParsedWorkspaceTab { working_dir: Some(text::from_chars(&working_dir)), title });
                assert(slots_view(tabs@) =~= g.update(index - 1, (Some(working_dir@), g[index - 1].1)));
            },
            None => {
                match title_assignment_chars(&trimmed) {
                    Some((index, title)) => {
                        assert(index > 0);
                        ensure_tab_slot(&mut tabs, index);
                        assert(tabs.len() >= index) by {
                            assert(slots_view(tabs@).len() == tabs@.len());
                        }
                        let ghost g = slots_view(tabs@);
                        let working_dir = clone_opt(&tabs[index - 1].working_dir);
                        tabs.set(index - 1, ParsedWorkspaceTab { working_dir, title: Some(text::from_chars(&title)) });
                        assert(slots_view(tabs@) =~= g.update(index - 1, (g[index - 1].0, Some(title@))));
                    },
                    None => {},
                }
            },
        }
    }
    assert(all.take(ls.len() as int) =~= all);
    let ghost st = slots_view(tabs@);
    let mut out: Vec<WorkspaceTab> = Vec::new();
    for k in 0..tabs.len()
        invariant
            st == slots_view(tabs@),
            st == read_slots(all),
            out.len() == k,
            forall|j: int| 0 <= j < k ==> tab_view(#[trigger] out@[j]) == tab_from_slot(j as nat, st[j], home@),
    {
        let slot = &tabs[k];
        let title = match &slot.title {
            Some(t) if !t.as_str().is_empty() => t.clone(),
            _ => match &slot.working_dir {
                Some(w) => fallback_tab_name(k + 1, Some(w.as_str()), home),
                None => fallback_tab_name(k + 1, None, home),
            },
        };
        let working_dir = match &slot.working_dir {
            Some(w) if !w.as_str().is_empty() => Some(w.clone()),
            _ => None,
        };
        out.push(WorkspaceTab { title, working_dir });
    }
    assert(tabs_view(out@) =~= workspace_tabs(script@, home@));
    out
}

fn render_chars(ls: &Vec<Vec<char>>) -> (r: Vec<char>)
    ensures
        r@ == text::render_lines(text::views(ls@)),
{
    let mut out: Vec<char> = Vec::new();
    for i in 0..ls.len()
        invariant
            out@ == text::render_lines(text::views(ls@).take(i as int)),
    {
        let ghost before = out@;
        text::extend(&mut out, &ls[i]);
        out.push('\n');
        proof {
            let a = text::views(ls@).take(i as int);
            let x = text::views(ls@)[i as int];
            text::lemma_render_concat(a, seq![x]);
            assert(text::views(ls@).take(i + 1) =~= a + seq![x]);
            text::lemma_render_single(x);
            assert(out@ =~= before + (x + seq!['\n']));
        }
    }
    assert(text::views(ls@).take(ls.len() as int) =~= text::views(ls@));
    out
}

pub(crate) fn indent_chars(s: &Vec<char>) -> (r: Vec<char>)
    ensures
        r@ == indent(s@),
{
    let mut out = text::to_chars("    ");
    text::extend(&mut out, s);
    out
}

fn cfg_line_chars(d: &Vec<char>) -> (r: Vec<char>)
    ensures
        r@ == cfg_line(d@),
{
    let mut l = text::to_chars("set cfg");
    text::extend(&mut l, d);
    text::extend_str(&mut l, " to new surface configuration");
    indent_chars(&l)
}

fn working_dir_line_chars(d: &Vec<char>, wd: &Vec<char>) -> (r: Vec<char>)
    ensures
        r@ == working_dir_line(d@, wd@),
{
    let mut l = text::to_chars("set initial working directory of cfg");
    text::extend(&mut l, d);
    text::extend_str(&mut l, " to ");
    l.push('"');
    text::extend(&mut l, &escape_chars(wd));
    l.push('"');
    indent_chars(&l)
}

fn title_line_chars(d: &Vec<char>, title: &Vec<char>) -> (r: Vec<char>)
    ensures
        r@ == title_line(d@, title@),
{
    let mut l = text::to_chars("perform action \"set_tab_title:");
    text::extend(&mut l, &escape_chars(title));
    l.push('"');
    text::extend_str(&mut l, " on term");
    text::extend(&mut l, d);
    indent_chars(&l)
}

fn window_lines_chars(n: usize, d: &Vec<char>) -> (r: Vec<Vec<char>>)
    ensures
        text::views(r@) == window_lines(n as nat, d@),
{
    let mut r: Vec<Vec<char>> = Vec::new();
    if n == 1 {
        let mut l = text::to_chars("set win to new window with configuration cfg");
        text::extend(&mut l, d);
        r.push(indent_chars(&l));
        let mut l = text::to_chars("set term");
        text::extend(&mut l, d);
        text::extend_str(&mut l, " to focused terminal of selected tab of win");
        r.push(indent_chars(&l));
    } else {
        let mut l = text::to_chars("set tab");
        text::extend(&mut l, d);
        text::extend_str(&mut l, " to new tab in win with configuration cfg");
        text::extend(&mut l, d);
        r.push(indent_chars(&l));
        let mut l = text::to_chars("set term");
        text::extend(&mut l, d);
        text::extend_str(&mut l, " to focused terminal of tab");
        text::extend(&mut l, d);
        r.push(indent_chars(&l));
    }
    assert(text::views(r@) =~= window_lines(n as nat, d@));
    r
}

fn tab_block_chars(n: usize, row: &TabRow) -> (r: Vec<Vec<char>>)
    requires
        n >= 1,
    ensures
        text::views(r@) == tab_block(n as nat, row_view(*row)),
{
    let d = text::decimal_chars(n);
    let wd = text::to_chars(row.working_dir.as_str());
    let title = text::to_chars(row.title.as_str());
    let mut r: Vec<Vec<char>> = Vec::new();
    r.push(Vec::new());
    r.push(cfg_line_chars(&d));
    r.push(working_dir_line_chars(&d, &wd));
    let ghost head = text::views(r@);
    assert(head =~= seq![Seq::<char>::empty(), cfg_line(d@), working_dir_line(d@, wd@)]);
    let mut w = window_lines_chars(n, &d);
    let ghost wv = text::views(w@);
    r.append(&mut w);
    assert(text::views(r@) =~= head + wv);
    if title.len() > 0 {
        let ghost before = text::views(r@);
        r.push(title_line_chars(&d, &title));
        assert(text::views(r@) =~= before + seq![title_line(d@, title@)]);
    } else {
        assert(text::views(r@) =~= text::views(r@) + Seq::<Seq<char>>::empty());
    }
    r
}

/// The AppleScript that opens a new Ghostty window with one tab per row: the first row in
/// the new window, the others as new tabs, each in its working directory and, when the row
/// has one, with its title.
pub fn build_workspace_script(rows: &Vec<TabRow>) -> (r: String)
    ensures
        r@ == workspace_script(rows_view(rows@)),
{
    let r = build_script_with(rows, Vec::new());
    assert(script_lines_with(rows_view(rows@), text::views(Seq::<Vec<char>>::empty())) =~= script_lines(
        rows_view(rows@),
    ));
    r
}

/// The workspace script for the captured tabs with `extra` lines after the tabs' blocks.
pub(crate) fn build_script_with(rows: &Vec<TabRow>, extra: Vec<Vec<char>>) -> (r: String)
    ensures
        r@ == workspace_script_with(rows_view(rows@), text::views(extra@)),
{
    let mut ls: Vec<Vec<char>> = Vec::new();
    ls.push(text::to_chars("tell application \"Ghostty\""));
    ls.push(indent_chars(&text::to_chars("activate")));
    let ghost head = text::views(ls@);
    let ghost rv = rows_view(rows@);
    assert(rv.take(0) =~= Seq::<(Seq<char>, Seq<char>)>::empty());
    assert(text::views(ls@) =~= head + tab_blocks(rv.take(0)));
    for i in 0..rows.len()
        invariant
            rv == rows_view(rows@),
            text::views(ls@) == head + tab_blocks(rv.take(i as int)),
    {
        let mut block = tab_block_chars(i + 1, &rows[i]);
        let ghost before = text::views(ls@);
        let ghost bv = text::views(block@);
        ls.append(&mut block);
        assert(text::views(ls@) =~= before + bv);
        proof {
            let t = rv.take(i + 1);
            assert(t.drop_last() =~= rv.take(i as int));
            assert(t.last() == row_view(rows@[i as int]));
            assert(text::views(ls@) =~= head + tab_blocks(t));
        }
    }
    let ghost mid = text::views(ls@);
    let ghost ev = text::views(extra@);
    let mut extra = extra;
    ls.append(&mut extra);
    assert(text::views(ls@) =~= mid + ev);
    let ghost mid2 = text::views(ls@);
    ls.push(text::to_chars("end tell"));
    assert(rv.take(rows.len() as int) =~= rv);
    assert(text::views(ls@) =~= mid2.push("end tell"@));
    assert(head =~= seq!["tell application \"Ghostty\""@, indent("activate"@)]);
    assert(text::views(ls@) =~= script_lines_with(rv, ev));
    text::from_chars(&render_chars(&ls))
}

/// The tabs of the front window from the tab listing (trimmed as a whole), one
/// "directory<TAB>title" per line; a tab without a directory gets `home`.
pub fn capture_ghostty_tabs(output: &str, home: &str) -> (r: Vec<TabRow>)
    ensures
        rows_view(r@) == captured_rows(text::lines(text::trim(output@)), home@),
{
    let v = text::trim_chars(&text::to_chars(output));
    let ls = text::split_lines(&v);
    let h = text::to_chars(home);
    let ghost want = captured_rows(text::lines(text::trim(output@)), home@);
    let mut rows: Vec<TabRow> = Vec::new();
    for i in 0..ls.len()
        invariant
            text::views(ls@) == text::lines(text::trim(output@)),
            want == captured_rows(text::lines(text::trim(output@)), home@),
            h@ == home@,
            rows.len() == i,
            forall|j: int| 0 <= j < i ==> row_view(#[trigger] rows@[j]) == want[j],
    {
        let line = &ls[i];
        assert(text::views(ls@).len() == ls@.len());
        assert(text::views(ls@)[i as int] == ls@[i as int]@);
        assert(line@ == text::lines(text::trim(output@))[i as int]);
        let tab = text::find_char_from(line, '\t', 0);
        proof {
            text::lemma_first_index_at(line@, '\t', tab as int);
        }
        let (wd, title) = if tab == line.len() {
            assert(line@.subrange(0, line.len() as int) =~= line@);
            (text::trim_chars(line), Vec::new())
        } else {
            let a = text::slice(line, 0, tab);
            let b = text::slice(line, tab + 1, line.len());
            assert(a@ =~= line@.take(tab as int));
            assert(b@ =~= line@.skip(tab + 1));
            (text::trim_chars(&a), text::trim_chars(&b))
        };
        let working_dir = if wd.len() == 0 {
            text::from_chars(&h)
        } else {
            text::from_chars(&wd)
        };
        let ghost prev = rows@;
        let ghost fi = text::first_index(line@, '\t');
        assert(want[i as int] == captured_row(line@, home@));
        assert(wd@ == (if fi < 0 { text::trim(line@) } else { text::trim(line@.take(fi)) }));
        assert(title@ == (if fi < 0 { Seq::<char>::empty() } else { text::trim(line@.skip(fi + 1)) }));
        let row = TabRow { working_dir, title: text::from_chars(&title) };
        assert(row_view(row) == captured_row(line@, home@));
        rows.push(row);
        assert(row_view(rows@[i as int]) == want[i as int]);
        assert forall|j: int| 0 <= j < i + 1 implies row_view(#[trigger] rows@[j]) == want[j] by {
            if j < i {
                assert(rows@[j] == prev[j]);
            }
        }
    }
    assert(rows_view(rows@) =~= want);
    rows
}

} // verus!
