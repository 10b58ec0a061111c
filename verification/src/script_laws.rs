//! What a saved workspace script gives back when it is read: the tabs it was written from.
use vstd::prelude::*;

use crate::script;
use crate::splits;
use crate::text;

verus! {

pub type Slot = (Option<Seq<char>>, Option<Seq<char>>);

/// The slot the reader fills for a captured tab: its directory, and its title when it has one.
pub open spec fn saved_slot(row: (Seq<char>, Seq<char>)) -> Slot {
    (Some(row.0), if row.1.len() > 0 {
        Some(row.1)
    } else {
        None
    })
}

pub open spec fn saved_slots(rows: Seq<(Seq<char>, Seq<char>)>) -> Seq<Slot> {
    Seq::new(rows.len(), |k: int| saved_slot(rows[k]))
}

/// The tabs a reader shows for a script saved from `rows`: each tab's title (or, without
/// one, the name derived from its directory) and its directory (when not empty).
pub open spec fn saved_tabs(rows: Seq<(Seq<char>, Seq<char>)>, home: Seq<char>) -> Seq<
    (Seq<char>, Option<Seq<char>>),
> {
    Seq::new(
        rows.len(),
        |k: int|
            (if rows[k].1.len() > 0 {
                rows[k].1
            } else {
                script::fallback_name((k + 1) as nat, Some(rows[k].0), home)
            }, script::nonempty(Some(rows[k].0))),
    )
}

/// Captured tabs whose directories and titles are each a single line.
pub open spec fn single_line_rows(rows: Seq<(Seq<char>, Seq<char>)>) -> bool {
    forall|k: int|
        0 <= k < rows.len() ==> !text::has_char(#[trigger] rows[k].0, '\n') && !text::has_char(
            rows[k].1,
            '\n',
        )
}

/// A line's text that is neither a directory assignment nor a title action.
pub open spec fn inert_text(t: Seq<char>) -> bool {
    &&& t.len() > 0
    &&& !text::is_ws(t[0])
    &&& !text::is_ws(t.last())
    &&& !text::has_char(t, '\n')
    &&& t[0] != 'p'
    &&& t[0] != 's' || (t.len() > 4 && t[4] != 'i')
}

pub open spec fn is_nothing(e: script::LineEffect) -> bool {
    match e {
        script::LineEffect::Nothing => true,
        _ => false,
    }
}

// ---------------------------------------------------------------------------
// Lines
// ---------------------------------------------------------------------------

proof fn lemma_trim_ws_prefix(w: Seq<char>, x: Seq<char>)
    requires
        forall|i: int| 0 <= i < w.len() ==> text::is_ws(#[trigger] w[i]),
        x.len() > 0 ==> !text::is_ws(x[0]),
    ensures
        text::trim_start(w + x) == x,
    decreases w.len(),
{
    if w.len() == 0 {
        assert(w + x =~= x);
    } else {
        assert((w + x)[0] == w[0]);
        assert((w + x).drop_first() =~= w.drop_first() + x);
        assert forall|i: int| 0 <= i < w.drop_first().len() implies text::is_ws(
            #[trigger] w.drop_first()[i],
        ) by {
            assert(w.drop_first()[i] == w[i + 1]);
        }
        lemma_trim_ws_prefix(w.drop_first(), x);
    }
}

proof fn lemma_trim_indent(x: Seq<char>)
    requires
        x.len() > 0,
        !text::is_ws(x[0]),
        !text::is_ws(x.last()),
    ensures
        text::trim(script::indent(x)) == x,
{
    reveal_strlit("    ");
    lemma_trim_ws_prefix("    "@, x);
    text::lemma_trim_fixed(x);
}

proof fn lemma_inert(t: Seq<char>)
    requires
        inert_text(t),
    ensures
        script::indexed_assignment(t, script::working_dir_prefix(), script::assignment_marker())
            is None,
        script::title_assignment(t) is None,
        text::trim(t) == t,
{
    reveal_strlit("set initial working directory of cfg");
    reveal_strlit("perform action \"set_tab_title:");
    let wp = script::working_dir_prefix();
    let tp = script::title_prefix();
    if text::is_prefix(wp, t) {
        assert(t.take(wp.len() as int)[0] == wp[0]);
        assert(t.take(wp.len() as int)[4] == wp[4]);
    }
    if text::is_prefix(tp, t) {
        assert(t.take(tp.len() as int)[0] == tp[0]);
    }
    text::lemma_trim_fixed(t);
}

/// An indented inert line is read as nothing and keeps its form.
proof fn lemma_inert_line(t: Seq<char>)
    requires
        inert_text(t),
    ensures
        is_nothing(script::line_effect(script::indent(t))),
        text::plain_line(script::indent(t)),
{
    lemma_trim_indent(t);
    lemma_inert(t);
    reveal_strlit("    ");
    text::lemma_has_char_concat("    "@, t, '\n');
    if text::has_char("    "@, '\n') {
        let k = choose|k: int| 0 <= k < 4 && "    "@[k] == '\n';
    }
    assert(script::indent(t).last() == t.last());
}

/// An unindented inert line is read as nothing and keeps its form.
proof fn lemma_inert_plain_line(t: Seq<char>)
    requires
        inert_text(t),
    ensures
        is_nothing(script::line_effect(t)),
        text::plain_line(t),
{
    lemma_inert(t);
}

proof fn lemma_no_newline_concat(a: Seq<char>, b: Seq<char>)
    requires
        !text::has_char(a, '\n'),
        !text::has_char(b, '\n'),
    ensures
        !text::has_char(a + b, '\n'),
{
    text::lemma_has_char_concat(a, b, '\n');
}

proof fn lemma_literal_no_newline(s: Seq<char>)
    requires
        forall|i: int| 0 <= i < s.len() ==> s[i] != '\n',
    ensures
        !text::has_char(s, '\n'),
{
}

proof fn lemma_escape_no_newline(x: Seq<char>)
    requires
        !text::has_char(x, '\n'),
    ensures
        !text::has_char(script::apple_escaped(x), '\n'),
    decreases x.len(),
{
    if x.len() > 0 {
        assert(!text::has_char(x.drop_first(), '\n')) by {
            if text::has_char(x.drop_first(), '\n') {
                let k = choose|k: int| 0 <= k < x.len() - 1 && x.drop_first()[k] == '\n';
                assert(x[k + 1] == '\n');
            }
        }
        lemma_escape_no_newline(x.drop_first());
        assert(x[0] != '\n');
        assert(!text::has_char(script::escape_char(x[0]), '\n'));
        lemma_no_newline_concat(script::escape_char(x[0]), script::apple_escaped(x.drop_first()));
    }
}

proof fn lemma_decimal_facts(n: nat)
    ensures
        text::decimal(n).len() > 0,
        !text::has_char(text::decimal(n), '\n'),
        !text::is_ws(text::decimal(n).last()),
        !text::is_ws(text::decimal(n)[0]),
        text::all_digits(text::decimal(n)),
        text::digits_value(text::decimal(n)) == n,
{
    text::lemma_decimal_digits(n);
    let d = text::decimal(n);
    assert(text::is_digit(d[d.len() - 1]));
    assert(text::is_digit(d[0]));
    if text::has_char(d, '\n') {
        let k = choose|k: int| 0 <= k < d.len() && d[k] == '\n';
        assert(text::is_digit(d[k]));
    }
}

// ---------------------------------------------------------------------------
// The lines of one tab
// ---------------------------------------------------------------------------

proof fn lemma_cfg_line(n: nat)
    ensures
        is_nothing(script::line_effect(script::cfg_line(text::decimal(n)))),
        text::plain_line(script::cfg_line(text::decimal(n))),
{
    reveal_strlit("set cfg");
    reveal_strlit(" to new surface configuration");
    let d = text::decimal(n);
    lemma_decimal_facts(n);
    let a = "set cfg"@;
    let b = " to new surface configuration"@;
    lemma_literal_no_newline(a);
    lemma_literal_no_newline(b);
    lemma_no_newline_concat(a, d);
    lemma_no_newline_concat(a + d, b);
    let t = a + d + b;
    assert(t[0] == 's' && t[4] == 'c');
    assert(t.last() == 'n');
    lemma_inert_line(t);
}

proof fn lemma_window_lines(n: nat)
    ensures
        forall|i: int|
            0 <= i < script::window_lines(n, text::decimal(n)).len() ==> is_nothing(
                script::line_effect(#[trigger] script::window_lines(n, text::decimal(n))[i]),
            ) && text::plain_line(script::window_lines(n, text::decimal(n))[i]),
        script::window_lines(n, text::decimal(n)).len() == 2,
{
    let d = text::decimal(n);
    lemma_decimal_facts(n);
    reveal_strlit("set win to new window with configuration cfg");
    reveal_strlit("set term");
    reveal_strlit(" to focused terminal of selected tab of win");
    reveal_strlit("set tab");
    reveal_strlit(" to new tab in win with configuration cfg");
    reveal_strlit(" to focused terminal of tab");
    if n == 1 {
        let a = "set win to new window with configuration cfg"@;
        lemma_literal_no_newline(a);
        lemma_no_newline_concat(a, d);
        let t1 = a + d;
        assert(t1[0] == 's' && t1[4] == 'w');
        assert(t1.last() == d.last());
        lemma_inert_line(t1);
        let b = "set term"@;
        let c = " to focused terminal of selected tab of win"@;
        lemma_literal_no_newline(b);
        lemma_literal_no_newline(c);
        lemma_no_newline_concat(b, d);
        lemma_no_newline_concat(b + d, c);
        let t2 = b + d + c;
        assert(t2[0] == 's' && t2[4] == 't');
        assert(t2.last() == 'n');
        lemma_inert_line(t2);
    } else {
        let a = "set tab"@;
        let b = " to new tab in win with configuration cfg"@;
        lemma_literal_no_newline(a);
        lemma_literal_no_newline(b);
        lemma_no_newline_concat(a, d);
        lemma_no_newline_concat(a + d, b);
        lemma_no_newline_concat(a + d + b, d);
        let t1 = a + d + b + d;
        assert(t1[0] == 's' && t1[4] == 't');
        assert(t1.last() == d.last());
        lemma_inert_line(t1);
        let c = "set term"@;
        let e = " to focused terminal of tab"@;
        lemma_literal_no_newline(c);
        lemma_literal_no_newline(e);
        lemma_no_newline_concat(c, d);
        lemma_no_newline_concat(c + d, e);
        lemma_no_newline_concat(c + d + e, d);
        let t2 = c + d + e + d;
        assert(t2[0] == 's' && t2[4] == 't');
        assert(t2.last() == d.last());
        lemma_inert_line(t2);
    }
}

proof fn lemma_split_decimal(n: nat, rest: Seq<char>)
    requires
        n <= usize::MAX,
        rest.len() > 0 ==> !text::is_digit(rest[0]),
    ensures
        script::split_digits_spec(text::decimal(n) + rest) == Some((n, rest)),
{
    let d = text::decimal(n);
    lemma_decimal_facts(n);
    text::lemma_digits_prefix_len_concat(d, rest);
    assert((d + rest).take(d.len() as int) =~= d);
    assert((d + rest).skip(d.len() as int) =~= rest);
}

proof fn lemma_working_dir_line(n: nat, wd: Seq<char>)
    requires
        1 <= n <= usize::MAX,
        !text::has_char(wd, '\n'),
    ensures
        script::line_effect(script::working_dir_line(text::decimal(n), wd))
            == script::LineEffect::WorkingDir(n, wd),
        text::plain_line(script::working_dir_line(text::decimal(n), wd)),
{
    reveal_strlit("set initial working directory of cfg");
    reveal_strlit(" to ");
    let d = text::decimal(n);
    lemma_decimal_facts(n);
    let wp = script::working_dir_prefix();
    let m = script::assignment_marker();
    let q = seq!['"'];
    let e = script::apple_escaped(wd);
    let t = wp + d + m + q + e + q;
    lemma_escape_no_newline(wd);
    lemma_literal_no_newline(wp);
    lemma_literal_no_newline(m);
    lemma_literal_no_newline(q);
    lemma_no_newline_concat(wp, d);
    lemma_no_newline_concat(wp + d, m);
    lemma_no_newline_concat(wp + d + m, q);
    lemma_no_newline_concat(wp + d + m + q, e);
    lemma_no_newline_concat(wp + d + m + q + e, q);
    assert(t[0] == 's');
    assert(t.last() == '"');
    lemma_trim_indent(t);
    reveal_strlit("    ");
    text::lemma_has_char_concat("    "@, t, '\n');
    if text::has_char("    "@, '\n') {
        let k = choose|k: int| 0 <= k < 4 && "    "@[k] == '\n';
    }
    assert(script::indent(t).last() == t.last());
    // The assignment reads back.
    assert(text::is_prefix(wp, t)) by {
        assert(t.take(wp.len() as int) =~= wp);
    }
    let rest = m + q + e + q;
    assert(t.skip(wp.len() as int) =~= d + rest);
    assert(rest[0] == ' ');
    lemma_split_decimal(n, rest);
    assert(text::is_prefix(m, rest)) by {
        assert(rest.take(m.len() as int) =~= m);
    }
    let value = q + e + q;
    assert(rest.skip(m.len() as int) =~= value);
    text::lemma_trim_start_idempotent(value);
    assert(text::trim_start(value) == value);
    script::lemma_scan_escaped(wd, Seq::<char>::empty());
    assert(value.drop_first() =~= e + q + Seq::<char>::empty());
    assert(script::apple_string(value) == Some(wd));
}

proof fn lemma_title_line(n: nat, title: Seq<char>)
    requires
        1 <= n <= usize::MAX,
        !text::has_char(title, '\n'),
    ensures
        script::line_effect(script::title_line(text::decimal(n), title))
            == script::LineEffect::Title(n, title),
        text::plain_line(script::title_line(text::decimal(n), title)),
{
    reveal_strlit("set initial working directory of cfg");
    reveal_strlit("perform action \"set_tab_title:");
    reveal_strlit(" on term");
    let d = text::decimal(n);
    lemma_decimal_facts(n);
    let tp = script::title_prefix();
    let tm = script::title_marker();
    let q = seq!['"'];
    let e = script::apple_escaped(title);
    let t = tp + e + q + tm + d;
    lemma_escape_no_newline(title);
    lemma_literal_no_newline(tp);
    lemma_literal_no_newline(tm);
    lemma_literal_no_newline(q);
    lemma_no_newline_concat(tp, e);
    lemma_no_newline_concat(tp + e, q);
    lemma_no_newline_concat(tp + e + q, tm);
    lemma_no_newline_concat(tp + e + q + tm, d);
    assert(t[0] == 'p');
    assert(t.last() == d.last());
    lemma_trim_indent(t);
    reveal_strlit("    ");
    text::lemma_has_char_concat("    "@, t, '\n');
    if text::has_char("    "@, '\n') {
        let k = choose|k: int| 0 <= k < 4 && "    "@[k] == '\n';
    }
    assert(script::indent(t).last() == t.last());
    // Not a directory assignment.
    let wp = script::working_dir_prefix();
    if text::is_prefix(wp, t) {
        assert(t.take(wp.len() as int)[0] == wp[0]);
    }
    // The title action reads back.
    assert(text::is_prefix(tp, t)) by {
        assert(t.take(tp.len() as int) =~= tp);
    }
    assert(t.skip(tp.len() as int) =~= e + q + (tm + d));
    script::lemma_scan_escaped(title, tm + d);
    assert(text::is_prefix(tm, tm + d)) by {
        assert((tm + d).take(tm.len() as int) =~= tm);
    }
    assert((tm + d).skip(tm.len() as int) =~= d);
    lemma_split_decimal(n, Seq::<char>::empty());
    assert(d + Seq::<char>::empty() =~= d);
}

// ---------------------------------------------------------------------------
// Reading
// ---------------------------------------------------------------------------

proof fn lemma_read_push(ls: Seq<Seq<char>>, x: Seq<char>)
    ensures
        script::read_slots(ls.push(x)) == script::read_step(script::read_slots(ls), x),
{
    assert(ls.push(x).drop_last() =~= ls);
}

proof fn lemma_indices_positive_concat(a: Seq<Seq<char>>, b: Seq<Seq<char>>)
    requires
        script::indices_positive(a),
        script::indices_positive(b),
    ensures
        script::indices_positive(a + b),
{
    assert forall|k: int| 0 <= k < (a + b).len() implies match #[trigger] script::line_effect(
        (a + b)[k],
    ) {
        script::LineEffect::WorkingDir(i, _) => i > 0,
        script::LineEffect::Title(i, _) => i > 0,
        script::LineEffect::Nothing => true,
    } by {
        if k < a.len() {
            assert((a + b)[k] == a[k]);
            assert(match script::line_effect(a[k]) {
                script::LineEffect::WorkingDir(i, _) => i > 0,
                script::LineEffect::Title(i, _) => i > 0,
                script::LineEffect::Nothing => true,
            });
        } else {
            assert((a + b)[k] == b[k - a.len()]);
            assert(match script::line_effect(b[k - a.len()]) {
                script::LineEffect::WorkingDir(i, _) => i > 0,
                script::LineEffect::Title(i, _) => i > 0,
                script::LineEffect::Nothing => true,
            });
        }
    }
}

proof fn lemma_plain_concat(a: Seq<Seq<char>>, b: Seq<Seq<char>>)
    requires
        text::plain_lines(a),
        text::plain_lines(b),
    ensures
        text::plain_lines(a + b),
{
    assert forall|k: int| 0 <= k < (a + b).len() implies text::plain_line(#[trigger] (a + b)[k]) by {
        if k < a.len() {
            assert((a + b)[k] == a[k]);
        } else {
            assert((a + b)[k] == b[k - a.len()]);
        }
    }
}

/// One tab's lines: all single lines naming only tab `n`; read after the slots of the tabs
/// before it, they add this tab's slot.
proof fn lemma_tab_block(n: nat, row: (Seq<char>, Seq<char>), before: Seq<Seq<char>>)
    requires
        1 <= n <= usize::MAX,
        !text::has_char(row.0, '\n'),
        !text::has_char(row.1, '\n'),
        script::read_slots(before).len() == n - 1,
    ensures
        text::plain_lines(script::tab_block(n, row)),
        script::indices_positive(script::tab_block(n, row)),
        script::read_slots(before + script::tab_block(n, row)) == script::read_slots(before).push(
            saved_slot(row),
        ),
{
    let d = text::decimal(n);
    let blk = script::tab_block(n, row);
    let w = script::window_lines(n, d);
    lemma_cfg_line(n);
    lemma_window_lines(n);
    lemma_working_dir_line(n, row.0);
    let empty = Seq::<char>::empty();
    assert(text::trim(empty) =~= empty) by {
        text::lemma_trim_fixed(empty);
    }
    assert(is_nothing(script::line_effect(empty))) by {
        if text::is_prefix(script::working_dir_prefix(), empty) {
            reveal_strlit("set initial working directory of cfg");
        }
        if text::is_prefix(script::title_prefix(), empty) {
            reveal_strlit("perform action \"set_tab_title:");
        }
    }
    assert(text::plain_line(empty)) by {
        assert(!text::has_char(empty, '\n'));
    }
    let w0 = w[0];
    let w1 = w[1];
    assert(is_nothing(script::line_effect(w0)) && text::plain_line(w0));
    assert(is_nothing(script::line_effect(w1)) && text::plain_line(w1));
    let opening = seq![empty, script::cfg_line(d), script::working_dir_line(d, row.0), w0, w1];
    assert(w =~= seq![w0, w1]);
    let st0 = script::read_slots(before);
    // Reading the opening lines.
    lemma_read_push(before, empty);
    lemma_read_push(before.push(empty), script::cfg_line(d));
    lemma_read_push(before.push(empty).push(script::cfg_line(d)), script::working_dir_line(d, row.0));
    let b3 = before.push(empty).push(script::cfg_line(d)).push(script::working_dir_line(d, row.0));
    let st3 = script::read_slots(b3);
    assert(script::grow_slots(st0, n) =~= st0.push((None, None)));
    assert(st3 =~= st0.push((Some(row.0), None)));
    lemma_read_push(b3, w0);
    lemma_read_push(b3.push(w0), w1);
    let b5 = b3.push(w0).push(w1);
    assert(b5 =~= before + opening);
    assert(script::read_slots(b5) == st3);
    if row.1.len() > 0 {
        lemma_title_line(n, row.1);
        let tl = script::title_line(d, row.1);
        assert(blk =~= opening.push(tl));
        lemma_read_push(b5, tl);
        assert(b5.push(tl) =~= before + blk);
        assert(script::grow_slots(st3, n) == st3);
        assert(script::read_slots(before + blk) =~= st0.push(saved_slot(row)));
        assert forall|k: int| 0 <= k < blk.len() implies text::plain_line(#[trigger] blk[k]) by {
            if k == 5 {
                assert(blk[k] == tl);
            } else {
                assert(blk[k] == opening[k]);
            }
        }
        assert forall|k: int| 0 <= k < blk.len() implies match #[trigger] script::line_effect(blk[k]) {
            script::LineEffect::WorkingDir(i, _) => i > 0,
            script::LineEffect::Title(i, _) => i > 0,
            script::LineEffect::Nothing => true,
        } by {
            if k == 5 {
                assert(blk[k] == tl);
            } else {
                assert(blk[k] == opening[k]);
            }
        }
    } else {
        assert(blk =~= opening);
        assert(saved_slot(row) == (Some(row.0), None::<Seq<char>>));
        assert forall|k: int| 0 <= k < blk.len() implies text::plain_line(#[trigger] blk[k]) by {
            assert(blk[k] == opening[k]);
        }
        assert forall|k: int| 0 <= k < blk.len() implies match #[trigger] script::line_effect(blk[k]) {
            script::LineEffect::WorkingDir(i, _) => i > 0,
            script::LineEffect::Title(i, _) => i > 0,
            script::LineEffect::Nothing => true,
        } by {
            assert(blk[k] == opening[k]);
        }
    }
}

proof fn lemma_tab_blocks(rows: Seq<(Seq<char>, Seq<char>)>, head: Seq<Seq<char>>)
    requires
        rows.len() <= usize::MAX,
        single_line_rows(rows),
        script::read_slots(head) == Seq::<Slot>::empty(),
    ensures
        text::plain_lines(script::tab_blocks(rows)),
        script::indices_positive(script::tab_blocks(rows)),
        script::read_slots(head + script::tab_blocks(rows)) == saved_slots(rows),
    decreases rows.len(),
{
    if rows.len() == 0 {
        assert(head + script::tab_blocks(rows) =~= head);
        assert(saved_slots(rows) =~= Seq::<Slot>::empty());
    } else {
        let prev = rows.drop_last();
        assert forall|k: int| 0 <= k < prev.len() implies !text::has_char(#[trigger] prev[k].0, '\n')
            && !text::has_char(prev[k].1, '\n') by {
            assert(prev[k] == rows[k]);
        }
        lemma_tab_blocks(prev, head);
        let n = rows.len() as nat;
        let row = rows.last();
        assert(!text::has_char(rows[rows.len() - 1].0, '\n'));
        let before = head + script::tab_blocks(prev);
        assert(script::read_slots(before).len() == n - 1);
        lemma_tab_block(n, row, before);
        assert(head + script::tab_blocks(rows) =~= before + script::tab_block(n, row));
        assert(saved_slots(rows) =~= saved_slots(prev).push(saved_slot(row)));
        lemma_plain_concat(script::tab_blocks(prev), script::tab_block(n, row));
        lemma_indices_positive_concat(script::tab_blocks(prev), script::tab_block(n, row));
    }
}

/// A saved workspace script, read back, shows the tabs it was saved from: tab `k` has the
/// captured title (or, without one, the name derived from its directory) and the captured
/// directory (when not empty). Every tab it names is counted from 1, so reading it is
/// always defined. This holds for directories and titles that are each one line.
pub proof fn law_script_round_trip(rows: Seq<(Seq<char>, Seq<char>)>, home: Seq<char>)
    requires
        rows.len() <= usize::MAX,
        single_line_rows(rows),
    ensures
        script::indices_positive(text::lines(script::workspace_script(rows))),
        script::workspace_tabs(script::workspace_script(rows), home) == saved_tabs(rows, home),
        text::lines(script::workspace_script(rows)) == script::script_lines(rows),
        text::plain_lines(script::script_lines(rows)),
{
    reveal_strlit("tell application \"Ghostty\"");
    reveal_strlit("activate");
    reveal_strlit("end tell");
    let l0 = "tell application \"Ghostty\""@;
    let l1 = script::indent("activate"@);
    let le = "end tell"@;
    assert(l0[0] == 't' && l0.last() == '"');
    lemma_literal_no_newline(l0);
    lemma_inert_plain_line(l0);
    assert("activate"@[0] == 'a');
    lemma_literal_no_newline("activate"@);
    lemma_inert_line("activate"@);
    assert(le[0] == 'e' && le.last() == 'l');
    lemma_literal_no_newline(le);
    lemma_inert_plain_line(le);
    let head = seq![l0, l1];
    lemma_read_push(seq![l0], l1);
    lemma_read_push(Seq::<Seq<char>>::empty(), l0);
    assert(seq![l0] =~= Seq::<Seq<char>>::empty().push(l0));
    assert(head =~= seq![l0].push(l1));
    assert(script::read_slots(Seq::<Seq<char>>::empty()) =~= Seq::<Slot>::empty());
    assert(script::read_slots(head) =~= Seq::<Slot>::empty());
    lemma_tab_blocks(rows, head);
    let body = head + script::tab_blocks(rows);
    let all = script::script_lines(rows);
    assert(all =~= body.push(le));
    lemma_read_push(body, le);
    assert(script::read_slots(all) == saved_slots(rows));
    // The script's lines are exactly the lines it was rendered from.
    let tail = seq![le];
    assert(text::plain_lines(head)) by {
        assert forall|k: int| 0 <= k < head.len() implies text::plain_line(#[trigger] head[k]) by {}
    }
    assert(text::plain_lines(tail)) by {
        assert forall|k: int| 0 <= k < tail.len() implies text::plain_line(#[trigger] tail[k]) by {}
    }
    lemma_plain_concat(head, script::tab_blocks(rows));
    lemma_plain_concat(body, tail);
    assert(all =~= body + tail);
    text::lemma_lines_render(all, Seq::<char>::empty());
    assert(script::workspace_script(rows) + Seq::<char>::empty() =~= script::workspace_script(rows));
    assert(text::lines(Seq::<char>::empty()) =~= Seq::<Seq<char>>::empty());
    assert(text::lines(script::workspace_script(rows)) =~= all);
    // Every line names a tab counted from 1.
    assert(script::indices_positive(head)) by {
        assert forall|k: int| 0 <= k < head.len() implies match #[trigger] script::line_effect(head[k]) {
            script::LineEffect::WorkingDir(i, _) => i > 0,
            script::LineEffect::Title(i, _) => i > 0,
            script::LineEffect::Nothing => true,
        } by {}
    }
    assert(script::indices_positive(tail)) by {
        assert forall|k: int| 0 <= k < tail.len() implies match #[trigger] script::line_effect(tail[k]) {
            script::LineEffect::WorkingDir(i, _) => i > 0,
            script::LineEffect::Title(i, _) => i > 0,
            script::LineEffect::Nothing => true,
        } by {}
    }
    lemma_indices_positive_concat(head, script::tab_blocks(rows));
    lemma_indices_positive_concat(body, tail);
    assert(script::workspace_tabs(script::workspace_script(rows), home) =~= saved_tabs(rows, home));
}

// ---------------------------------------------------------------------------
// Split panes
// ---------------------------------------------------------------------------

/// Lines that are read as nothing and keep their form.
pub open spec fn quiet_lines(ls: Seq<Seq<char>>) -> bool {
    forall|k: int| 0 <= k < ls.len() ==> is_nothing(#[trigger] script::line_effect(ls[k])) && text::plain_line(ls[k])
}

proof fn lemma_decimal_tail(prefix: Seq<char>, j: nat)
    requires
        prefix.len() > 0,
        !text::has_char(prefix, '\n'),
    ensures
        !text::has_char(prefix + text::decimal(j), '\n'),
        (prefix + text::decimal(j)).len() > 0,
        !text::is_ws((prefix + text::decimal(j)).last()),
        (prefix + text::decimal(j))[0] == prefix[0],
{
    lemma_decimal_facts(j);
    lemma_no_newline_concat(prefix, text::decimal(j));
}

proof fn lemma_split_line_quiet(ps: Seq<splits::PaneRow>, j: usize, parent: Seq<char>, down: bool)
    requires
        !text::has_char(parent, '\n'),
        !text::has_char(ps[j as int].working_dir@, '\n'),
    ensures
        quiet_lines(seq![
            splits::split_cfg_line(j),
            splits::split_dir_line(j, ps[j as int].working_dir@),
            splits::split_line(j, parent, down),
        ]),
        !text::has_char(splits::pane_var(j), '\n'),
{
    reveal_strlit("set ");
    reveal_strlit("tell ");
    reveal_strlit("pcfg");
    reveal_strlit("pane");
    reveal_strlit(" to new surface configuration");
    reveal_strlit(" to set initial working directory to ");
    reveal_strlit(" to split ");
    reveal_strlit(" direction ");
    reveal_strlit("down");
    reveal_strlit("right");
    reveal_strlit(" with configuration ");
    let cfg = splits::pane_cfg(j);
    let var = splits::pane_var(j);
    lemma_literal_no_newline("pcfg"@);
    lemma_literal_no_newline("pane"@);
    lemma_decimal_tail("pcfg"@, j as nat);
    lemma_decimal_tail("pane"@, j as nat);
    let s4 = "set "@;
    lemma_literal_no_newline(s4);
    lemma_literal_no_newline("tell "@);
    lemma_literal_no_newline(" to new surface configuration"@);
    lemma_literal_no_newline(" to set initial working directory to "@);
    lemma_literal_no_newline(" to split "@);
    lemma_literal_no_newline(" direction "@);
    lemma_literal_no_newline(" with configuration "@);
    lemma_literal_no_newline(seq!['"']);
    let dw = splits::direction_word(down);
    lemma_literal_no_newline(dw);
    // The configuration line.
    let t1 = s4 + cfg + " to new surface configuration"@;
    lemma_no_newline_concat(s4, cfg);
    lemma_no_newline_concat(s4 + cfg, " to new surface configuration"@);
    assert(t1[0] == 's' && t1[4] == 'p');
    assert(t1.last() == 'n');
    lemma_inert_line(t1);
    // The directory line.
    let wd = ps[j as int].working_dir@;
    lemma_escape_no_newline(wd);
    let t2 = "tell "@ + cfg + " to set initial working directory to "@ + seq!['"'] + script::apple_escaped(wd)
        + seq!['"'];
    lemma_no_newline_concat("tell "@, cfg);
    lemma_no_newline_concat("tell "@ + cfg, " to set initial working directory to "@);
    lemma_no_newline_concat("tell "@ + cfg + " to set initial working directory to "@, seq!['"']);
    lemma_no_newline_concat(
        "tell "@ + cfg + " to set initial working directory to "@ + seq!['"'],
        script::apple_escaped(wd),
    );
    lemma_no_newline_concat(
        "tell "@ + cfg + " to set initial working directory to "@ + seq!['"'] + script::apple_escaped(wd),
        seq!['"'],
    );
    assert(t2[0] == 't');
    assert(t2.last() == '"');
    lemma_inert_line(t2);
    // The split line.
    let t3 = s4 + var + " to split "@ + parent + " direction "@ + dw + " with configuration "@ + cfg;
    lemma_no_newline_concat(s4, var);
    lemma_no_newline_concat(s4 + var, " to split "@);
    lemma_no_newline_concat(s4 + var + " to split "@, parent);
    lemma_no_newline_concat(s4 + var + " to split "@ + parent, " direction "@);
    lemma_no_newline_concat(s4 + var + " to split "@ + parent + " direction "@, dw);
    lemma_no_newline_concat(s4 + var + " to split "@ + parent + " direction "@ + dw, " with configuration "@);
    lemma_no_newline_concat(s4 + var + " to split "@ + parent + " direction "@ + dw + " with configuration "@, cfg);
    assert(t3[0] == 's' && t3[4] == 'p');
    assert(t3.last() == cfg.last());
    lemma_inert_line(t3);
    let ls = seq![splits::split_cfg_line(j), splits::split_dir_line(j, wd), splits::split_line(j, parent, down)];
    assert(ls[0] == script::indent(t1));
    assert(ls[1] == script::indent(t2));
    assert(ls[2] == script::indent(t3));
}

proof fn lemma_quiet_concat(a: Seq<Seq<char>>, b: Seq<Seq<char>>)
    requires
        quiet_lines(a),
        quiet_lines(b),
    ensures
        quiet_lines(a + b),
{
    assert forall|k: int| 0 <= k < (a + b).len() implies is_nothing(#[trigger] script::line_effect((a + b)[k]))
        && text::plain_line((a + b)[k]) by {
        if k < a.len() {
            assert((a + b)[k] == a[k]);
        } else {
            assert((a + b)[k] == b[k - a.len()]);
        }
    }
}

proof fn lemma_split_lines_quiet(ps: Seq<splits::PaneRow>, t: splits::SplitTree, parent: Seq<char>)
    requires
        splits::valid_ids(ps, splits::leaves(t)),
        !text::has_char(parent, '\n'),
        forall|k: int| 0 <= k < ps.len() ==> !text::has_char(#[trigger] ps[k].working_dir@, '\n'),
    ensures
        quiet_lines(splits::split_lines(ps, t, parent)),
    decreases t,
{
    match t {
        splits::SplitTree::Pane(_) => {},
        splits::SplitTree::Split { down, first, second } => {
            let lf = splits::leaves(*first);
            let ls = splits::leaves(*second);
            assert(splits::leaves(t) == lf + ls);
            assert forall|k: int| 0 <= k < lf.len() implies #[trigger] lf[k] < ps.len() by {
                assert(splits::leaves(t)[k] == lf[k]);
            }
            assert forall|k: int| 0 <= k < ls.len() implies #[trigger] ls[k] < ps.len() by {
                assert(splits::leaves(t)[lf.len() + k] == ls[k]);
            }
            let j = splits::first_leaf(*second);
            lemma_first_leaf_is_leaf(*second);
            assert(ls[0] < ps.len());
            lemma_split_line_quiet(ps, j, parent, down);
            lemma_split_lines_quiet(ps, *first, parent);
            lemma_split_lines_quiet(ps, *second, splits::pane_var(j));
            let head = seq![
                splits::split_cfg_line(j),
                splits::split_dir_line(j, ps[j as int].working_dir@),
                splits::split_line(j, parent, down),
            ];
            lemma_quiet_concat(head, splits::split_lines(ps, *first, parent));
            lemma_quiet_concat(
                head + splits::split_lines(ps, *first, parent),
                splits::split_lines(ps, *second, splits::pane_var(j)),
            );
        },
    }
}

proof fn lemma_first_leaf_is_leaf(t: splits::SplitTree)
    ensures
        splits::leaves(t).len() > 0,
        splits::leaves(t)[0] == splits::first_leaf(t),
    decreases t,
{
    if let splits::SplitTree::Split { first, second, .. } = t {
        lemma_first_leaf_is_leaf(*first);
        assert((splits::leaves(*first) + splits::leaves(*second))[0] == splits::leaves(*first)[0]);
    }
}

proof fn lemma_layout_lines_quiet(ps: Seq<splits::PaneRow>, count: nat)
    requires
        forall|k: int| 0 <= k < ps.len() ==> !text::has_char(#[trigger] ps[k].working_dir@, '\n'),
    ensures
        quiet_lines(splits::layout_lines(ps, count)),
    decreases count,
{
    if count > 0 {
        lemma_layout_lines_quiet(ps, (count - 1) as nat);
        let ids = splits::tab_pane_ids(ps, count, ps.len());
        splits::lemma_tab_pane_ids(ps, count, ps.len());
        splits::lemma_layout_valid(ps, ids);
        if let Some(t) = splits::layout(ps, ids) {
            reveal_strlit("term");
            lemma_literal_no_newline("term"@);
            lemma_decimal_tail("term"@, count);
            lemma_split_lines_quiet(ps, t, "term"@ + text::decimal(count));
        }
        lemma_quiet_concat(splits::layout_lines(ps, (count - 1) as nat), splits::tab_layout_lines(ps, count));
    }
}

proof fn lemma_read_quiet(body: Seq<Seq<char>>, extra: Seq<Seq<char>>)
    requires
        quiet_lines(extra),
    ensures
        script::read_slots(body + extra) == script::read_slots(body),
    decreases extra.len(),
{
    if extra.len() == 0 {
        assert(body + extra =~= body);
    } else {
        let d = extra.drop_last();
        assert forall|k: int| 0 <= k < d.len() implies is_nothing(#[trigger] script::line_effect(d[k]))
            && text::plain_line(d[k]) by {
            assert(d[k] == extra[k]);
        }
        lemma_read_quiet(body, d);
        assert(body + extra =~= (body + d).push(extra.last()));
        lemma_read_push(body + d, extra.last());
        assert(is_nothing(script::line_effect(extra[extra.len() - 1])));
    }
}

/// A workspace script that also lays out split panes reads back the same tabs as the script
/// without them: the split lines are read as nothing. This holds for directories and titles
/// that are each one line.
pub proof fn law_split_script_round_trip(
    rows: Seq<(Seq<char>, Seq<char>)>,
    ps: Seq<splits::PaneRow>,
    home: Seq<char>,
)
    requires
        rows.len() <= usize::MAX,
        single_line_rows(rows),
        forall|k: int| 0 <= k < ps.len() ==> !text::has_char(#[trigger] ps[k].working_dir@, '\n'),
    ensures
        script::indices_positive(
            text::lines(script::workspace_script_with(rows, splits::layout_lines(ps, rows.len()))),
        ),
        script::workspace_tabs(script::workspace_script_with(rows, splits::layout_lines(ps, rows.len())), home)
            == saved_tabs(rows, home),
{
    law_script_round_trip(rows, home);
    let extra = splits::layout_lines(ps, rows.len());
    lemma_layout_lines_quiet(ps, rows.len());
    let head = seq!["tell application \"Ghostty\""@, script::indent("activate"@)];
    let body = head + script::tab_blocks(rows);
    let le = "end tell"@;
    let all = script::script_lines(rows);
    let all2 = script::script_lines_with(rows, extra);
    assert(all =~= body.push(le));
    assert(all2 =~= (body + extra).push(le));
    // Lines keep their form.
    assert(text::plain_lines(body)) by {
        assert forall|k: int| 0 <= k < body.len() implies text::plain_line(#[trigger] body[k]) by {
            assert(all[k] == body[k]);
        }
    }
    assert(text::plain_line(le)) by {
        assert(all[all.len() - 1] == le);
    }
    assert(text::plain_lines(extra)) by {
        assert forall|k: int| 0 <= k < extra.len() implies text::plain_line(#[trigger] extra[k]) by {
            assert(is_nothing(script::line_effect(extra[k])) && text::plain_line(extra[k]));
        }
    }
    lemma_plain_concat(body, extra);
    assert(text::plain_lines(seq![le])) by {
        assert forall|k: int| 0 <= k < 1 implies text::plain_line(#[trigger] seq![le][k]) by {}
    }
    lemma_plain_concat(body + extra, seq![le]);
    assert(all2 =~= body + extra + seq![le]);
    text::lemma_lines_render(all2, Seq::<char>::empty());
    assert(script::workspace_script_with(rows, extra) + Seq::<char>::empty() =~= script::workspace_script_with(rows, extra));
    assert(text::lines(Seq::<char>::empty()) =~= Seq::<Seq<char>>::empty());
    assert(text::lines(script::workspace_script_with(rows, extra)) =~= all2);
    // The same slots are read.
    lemma_read_quiet(body, extra);
    lemma_read_push(body + extra, le);
    lemma_read_push(body, le);
    assert(script::read_slots(all2) == script::read_slots(all));
    // Tabs are still counted from 1.
    assert(script::indices_positive(all));
    assert(script::indices_positive(body)) by {
        assert forall|k: int| 0 <= k < body.len() implies match #[trigger] script::line_effect(body[k]) {
            script::LineEffect::WorkingDir(i, _) => i > 0,
            script::LineEffect::Title(i, _) => i > 0,
            script::LineEffect::Nothing => true,
        } by {
            assert(all[k] == body[k]);
            assert(match script::line_effect(all[k]) {
                script::LineEffect::WorkingDir(i, _) => i > 0,
                script::LineEffect::Title(i, _) => i > 0,
                script::LineEffect::Nothing => true,
            });
        }
    }
    assert(script::indices_positive(extra)) by {
        assert forall|k: int| 0 <= k < extra.len() implies match #[trigger] script::line_effect(extra[k]) {
            script::LineEffect::WorkingDir(i, _) => i > 0,
            script::LineEffect::Title(i, _) => i > 0,
            script::LineEffect::Nothing => true,
        } by {
            assert(is_nothing(script::line_effect(extra[k])));
        }
    }
    assert(script::indices_positive(seq![le])) by {
        assert(all[all.len() - 1] == le);
        assert(match script::line_effect(all[all.len() - 1]) {
            script::LineEffect::WorkingDir(i, _) => i > 0,
            script::LineEffect::Title(i, _) => i > 0,
            script::LineEffect::Nothing => true,
        });
        assert forall|k: int| 0 <= k < 1 implies match #[trigger] script::line_effect(seq![le][k]) {
            script::LineEffect::WorkingDir(i, _) => i > 0,
            script::LineEffect::Title(i, _) => i > 0,
            script::LineEffect::Nothing => true,
        } by {
            assert(seq![le][k] == le);
        }
    }
    lemma_indices_positive_concat(body, extra);
    lemma_indices_positive_concat(body + extra, seq![le]);
    assert(script::workspace_tabs(script::workspace_script_with(rows, extra), home) =~= script::workspace_tabs(
        script::workspace_script(rows),
        home,
    ));
}

// ---------------------------------------------------------------------------
// Tab names and tab openings
// ---------------------------------------------------------------------------

/// An untitled tab is named after its directory (taken trimmed): "Tab <n>" without one, "~"
/// for the home directory itself, and for any other directory whose last component is plain,
/// that last component, the text after its last '/'.
pub proof fn law_fallback_name(index: nat, working_dir: Seq<char>, home: Seq<char>)
    ensures
        text::trim(working_dir).len() == 0 ==> script::fallback_name(index, Some(working_dir), home) == "Tab "@
            + text::decimal(index),
        text::trim(working_dir).len() > 0 && text::trim(working_dir) == home ==> script::fallback_name(
            index,
            Some(working_dir),
            home,
        ) == "~"@,
        text::trim(working_dir).len() > 0 && text::trim(working_dir) != home && script::plain_last_component(
            text::trim(working_dir),
        ) ==> script::fallback_name(index, Some(working_dir), home) == script::after_last_slash(
            text::trim(working_dir),
        ),
{
}

proof fn lemma_tab_blocks_prefix(rows: Seq<(Seq<char>, Seq<char>)>, m: int)
    requires
        0 <= m <= rows.len(),
    ensures
        script::tab_blocks(rows.take(m)).len() <= script::tab_blocks(rows).len(),
        forall|i: int|
            0 <= i < script::tab_blocks(rows.take(m)).len() ==> #[trigger] script::tab_blocks(rows)[i]
                == script::tab_blocks(rows.take(m))[i],
    decreases rows.len(),
{
    if m == rows.len() {
        assert(rows.take(m) =~= rows);
    } else {
        let d = rows.drop_last();
        lemma_tab_blocks_prefix(d, m);
        assert(d.take(m) =~= rows.take(m));
        let b = script::tab_blocks(d);
        assert(script::tab_blocks(rows) == b + script::tab_block(rows.len() as nat, rows.last()));
        assert forall|i: int| 0 <= i < script::tab_blocks(rows.take(m)).len() implies #[trigger] script::tab_blocks(
            rows,
        )[i] == script::tab_blocks(rows.take(m))[i] by {
            assert(script::tab_blocks(rows)[i] == b[i]);
        }
    }
}

/// In the written script each tab opens in its own directory and under its own title: the
/// line that sets the directory of surface configuration cfg<n> to row n's directory is
/// followed by the line that opens tab n with that same configuration (a new window for tab 1,
/// a new tab in it for every later tab), then the line that names that tab's terminal term<n>,
/// then, when row n has a title, the action that sets that title on term<n>.
pub proof fn law_tab_opens_in_own_directory(rows: Seq<(Seq<char>, Seq<char>)>, n: nat)
    requires
        1 <= n <= rows.len(),
        rows.len() <= usize::MAX,
        single_line_rows(rows),
    ensures
        ({
            let ls = text::lines(script::workspace_script(rows));
            let d = text::decimal(n);
            exists|k: int|
                0 <= k && k + 2 < ls.len() && #[trigger] ls[k] == script::indent(
                    "set initial working directory of cfg"@ + d + " to "@ + seq!['"'] + script::apple_escaped(
                        rows[n - 1].0,
                    ) + seq!['"'],
                ) && ls[k + 1] == script::indent(
                    if n == 1 {
                        "set win to new window with configuration cfg"@ + d
                    } else {
                        "set tab"@ + d + " to new tab in win with configuration cfg"@ + d
                    },
                ) && ls[k + 2] == script::indent(
                    if n == 1 {
                        "set term"@ + d + " to focused terminal of selected tab of win"@
                    } else {
                        "set term"@ + d + " to focused terminal of tab"@ + d
                    },
                ) && (rows[n - 1].1.len() > 0 ==> k + 3 < ls.len() && ls[k + 3] == script::indent(
                    "perform action \"set_tab_title:"@ + script::apple_escaped(rows[n - 1].1) + seq!['"']
                        + " on term"@ + d,
                ))
        }),
{
    law_script_round_trip(rows, Seq::<char>::empty());
    let ls = text::lines(script::workspace_script(rows));
    let d = text::decimal(n);
    lemma_tab_blocks_prefix(rows, n as int);
    let t = rows.take(n as int);
    assert(t.drop_last() =~= rows.take(n - 1));
    assert(t.last() == rows[n - 1]);
    let before = script::tab_blocks(rows.take(n - 1));
    let block = script::tab_block(n, rows[n - 1]);
    assert(script::tab_blocks(t) == before + block);
    let o = before.len() as int;
    let blocks = script::tab_blocks(rows);
    assert(blocks[o + 2] == script::tab_blocks(t)[o + 2]);
    assert(blocks[o + 3] == script::tab_blocks(t)[o + 3]);
    assert(blocks[o + 4] == script::tab_blocks(t)[o + 4]);
    assert(script::tab_blocks(t)[o + 2] == block[2]);
    assert(script::tab_blocks(t)[o + 3] == block[3]);
    assert(script::tab_blocks(t)[o + 4] == block[4]);
    if rows[n - 1].1.len() > 0 {
        assert(blocks[o + 5] == script::tab_blocks(t)[o + 5]);
        assert(script::tab_blocks(t)[o + 5] == block[5]);
    }
    let head = seq!["tell application \"Ghostty\""@, script::indent("activate"@)];
    let all = script::script_lines(rows);
    assert(all == head + blocks + seq!["end tell"@]);
    let k = 2 + o + 2;
    assert(all[k] == blocks[o + 2]);
    assert(all[k + 1] == blocks[o + 3]);
    assert(all[k + 2] == blocks[o + 4]);
    if rows[n - 1].1.len() > 0 {
        assert(all[k + 3] == blocks[o + 5]);
    }
    assert(ls[k] == block[2]);
}

} // verus!
