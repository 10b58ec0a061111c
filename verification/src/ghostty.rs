//! The managed Ghostty shortcut: the keybind file and the reference to it in
//! Ghostty's own configuration file.
use vstd::prelude::*;

use crate::config;
use crate::text;

verus! {

// ---------------------------------------------------------------------------
// Specifications
// ---------------------------------------------------------------------------

pub open spec fn strings_view(v: Seq<String>) -> Seq<Seq<char>> {
    Seq::new(v.len(), |i: int| v[i]@)
}

pub open spec fn include_comment() -> Seq<char> {
    "# Managed by gtab. Update this with `gtab init` or `gtab set ghostty_shortcut`."@
}

/// The keybind file for a shortcut.
pub open spec fn shortcut_include(shortcut: Seq<char>) -> Seq<char> {
    if config::shortcut_disabled(shortcut) {
        include_comment() + "\n# Ghostty-local shortcut is disabled.\n"@
    } else {
        include_comment()
            + "\n# Default Ghostty-local shortcut: send `gtab` to the focused shell for same-tab launch.\nkeybind = "@
            + shortcut + "=text:gtab\\x0d\n"@
    }
}

/// `s` without leading and trailing double quotes (`trim_matches('"')`).
pub open spec fn trim_start_quotes(s: Seq<char>) -> Seq<char>
    decreases s.len(),
{
    if s.len() > 0 && s[0] == '"' {
        trim_start_quotes(s.drop_first())
    } else {
        s
    }
}

pub open spec fn trim_end_quotes(s: Seq<char>) -> Seq<char>
    decreases s.len(),
{
    if s.len() > 0 && s.last() == '"' {
        trim_end_quotes(s.drop_last())
    } else {
        s
    }
}

pub open spec fn trim_quotes(s: Seq<char>) -> Seq<char> {
    trim_end_quotes(trim_start_quotes(s))
}

/// A `config-file = "<include_path>"` line, however it is spaced or quoted.
pub open spec fn is_reference_line(line: Seq<char>, include_path: Seq<char>) -> bool {
    let i = text::first_index(line, '=');
    &&& i >= 0
    &&& text::trim(line.take(i)) == "config-file"@
    &&& trim_quotes(text::trim(line.skip(i + 1))) == include_path
}

pub open spec fn managed_header() -> Seq<char> {
    "# gtab managed inc"@ + "lude"@
}

/// The managed comment placed above the reference.
fn managed_header_chars() -> (r: Vec<char>)
    ensures
        r@ == managed_header(),
{
    let mut v = text::to_chars("# gtab managed inc");
    text::extend_str(&mut v, "lude");
    v
}

pub open spec fn reference_line(include_path: Seq<char>) -> Seq<char> {
    "config-file = "@ + seq!['"'] + include_path + seq!['"']
}

pub open spec fn drop_trailing_header(k: Seq<Seq<char>>) -> Seq<Seq<char>> {
    if k.len() > 0 && text::trim(k.last()) == managed_header() {
        k.drop_last()
    } else {
        k
    }
}

pub open spec fn drop_trailing_blank(k: Seq<Seq<char>>) -> Seq<Seq<char>> {
    if k.len() > 0 && text::trim(k.last()).len() == 0 {
        k.drop_last()
    } else {
        k
    }
}

/// The lines with every reference to the shortcut file removed, each with the managed-shortcut file
/// comment and the blank line just above it.
pub open spec fn stripped_lines(ls: Seq<Seq<char>>, include_path: Seq<char>) -> Seq<Seq<char>>
    decreases ls.len(),
{
    if ls.len() == 0 {
        seq![]
    } else {
        let kept = stripped_lines(ls.drop_last(), include_path);
        if is_reference_line(ls.last(), include_path) {
            drop_trailing_blank(drop_trailing_header(kept))
        } else {
            kept.push(ls.last())
        }
    }
}

/// The lines followed by a blank line (when there are any), the managed comment and the
/// reference.
pub open spec fn with_reference_lines(ls: Seq<Seq<char>>, include_path: Seq<char>) -> Seq<
    Seq<char>,
> {
    (if ls.len() > 0 {
        ls.push(seq![])
    } else {
        ls
    }) + seq![managed_header(), reference_line(include_path)]
}

/// The new text of Ghostty's configuration file, or `None` when it is to be left as it is.
/// `existing` is its current text, `None` when there is no such file.
pub open spec fn next_ghostty_config(
    existing: Option<Seq<char>>,
    include_path: Seq<char>,
    enabled: bool,
) -> Option<Seq<char>> {
    match existing {
        None => if enabled {
            Some(text::render_lines(with_reference_lines(seq![], include_path)))
        } else {
            None
        },
        Some(e) => {
            let kept = stripped_lines(text::lines(e), include_path);
            let next = if enabled {
                text::render_lines(with_reference_lines(kept, include_path))
            } else {
                text::render_lines(kept)
            };
            if next == e {
                None
            } else {
                Some(next)
            }
        },
    }
}

/// Ghostty's configuration text after a sync: the new text, or the old one when unchanged.
pub open spec fn after_sync(existing: Option<Seq<char>>, include_path: Seq<char>, enabled: bool) -> Option<
    Seq<char>,
> {
    match next_ghostty_config(existing, include_path, enabled) {
        Some(n) => Some(n),
        None => existing,
    }
}

/// A shortcut file path that a reference line names faithfully: one line, not wrapped in quotes.
pub open spec fn referable_path(p: Seq<char>) -> bool {
    &&& !text::has_char(p, '\n')
    &&& p.len() > 0 ==> p[0] != '"' && p.last() != '"'
}

/// A configuration text whose lines keep their form when written back.
pub open spec fn plain_text(e: Seq<char>) -> bool {
    text::plain_lines(text::lines(e))
}

pub open spec fn no_reference(ls: Seq<Seq<char>>, p: Seq<char>) -> bool {
    forall|i: int| 0 <= i < ls.len() ==> !is_reference_line(#[trigger] ls[i], p)
}

// ---------------------------------------------------------------------------
// Lemmas
// ---------------------------------------------------------------------------

proof fn lemma_drop_trailing_sub(k: Seq<Seq<char>>)
    ensures
        drop_trailing_blank(drop_trailing_header(k)).len() <= k.len(),
        forall|i: int|
            0 <= i < drop_trailing_blank(drop_trailing_header(k)).len() ==> #[trigger] drop_trailing_blank(
                drop_trailing_header(k),
            )[i] == k[i],
{
}

/// Every kept line is an original line, and none of them refers to the shortcut file.
proof fn lemma_stripped_lines(ls: Seq<Seq<char>>, p: Seq<char>)
    ensures
        no_reference(stripped_lines(ls, p), p),
        text::plain_lines(ls) ==> text::plain_lines(stripped_lines(ls, p)),
    decreases ls.len(),
{
    if ls.len() > 0 {
        let pre = ls.drop_last();
        lemma_stripped_lines(pre, p);
        let kept = stripped_lines(pre, p);
        if text::plain_lines(ls) {
            assert forall|i: int| 0 <= i < pre.len() implies text::plain_line(#[trigger] pre[i]) by {
                assert(pre[i] == ls[i]);
            }
            assert(text::plain_line(ls[ls.len() - 1]));
        }
        if is_reference_line(ls.last(), p) {
            lemma_drop_trailing_sub(kept);
        } else {
            let r = kept.push(ls.last());
            assert forall|i: int| 0 <= i < r.len() implies !is_reference_line(#[trigger] r[i], p) by {
                if i < kept.len() {
                    assert(r[i] == kept[i]);
                }
            }
            if text::plain_lines(ls) {
                assert forall|i: int| 0 <= i < r.len() implies text::plain_line(#[trigger] r[i]) by {
                    if i < kept.len() {
                        assert(r[i] == kept[i]);
                    }
                }
            }
        }
    }
}

/// Lines without references are kept as they are.
proof fn lemma_stripped_identity(ls: Seq<Seq<char>>, p: Seq<char>)
    requires
        no_reference(ls, p),
    ensures
        stripped_lines(ls, p) == ls,
    decreases ls.len(),
{
    if ls.len() > 0 {
        let pre = ls.drop_last();
        assert forall|i: int| 0 <= i < pre.len() implies !is_reference_line(#[trigger] pre[i], p) by {
            assert(pre[i] == ls[i]);
        }
        assert(!is_reference_line(ls[ls.len() - 1], p));
        lemma_stripped_identity(pre, p);
        assert(pre.push(ls.last()) =~= ls);
    }
}

proof fn lemma_no_equals_not_reference(l: Seq<char>, p: Seq<char>)
    requires
        !text::has_char(l, '='),
    ensures
        !is_reference_line(l, p),
{
    text::lemma_first_index(l, '=');
}

proof fn lemma_header_facts(p: Seq<char>)
    ensures
        !is_reference_line(managed_header(), p),
        !is_reference_line(Seq::<char>::empty(), p),
        text::trim(managed_header()) == managed_header(),
        text::plain_line(managed_header()),
        text::plain_line(Seq::<char>::empty()),
{
    reveal_strlit("# gtab managed inc");
    reveal_strlit("lude");
    let h = managed_header();
    assert(!text::has_char(h, '=')) by {
        if text::has_char(h, '=') {
            let k = choose|k: int| 0 <= k < h.len() && h[k] == '=';
        }
    }
    assert(!text::has_char(h, '\n')) by {
        if text::has_char(h, '\n') {
            let k = choose|k: int| 0 <= k < h.len() && h[k] == '\n';
        }
    }
    assert(!text::has_char(Seq::<char>::empty(), '='));
    assert(!text::has_char(Seq::<char>::empty(), '\n'));
    lemma_no_equals_not_reference(h, p);
    lemma_no_equals_not_reference(Seq::<char>::empty(), p);
    text::lemma_trim_fixed(h);
}

/// The reference line written for a referable path is recognized, and keeps its form.
proof fn lemma_reference_line(p: Seq<char>)
    requires
        referable_path(p),
    ensures
        is_reference_line(reference_line(p), p),
        text::plain_line(reference_line(p)),
{
    reveal_strlit("config-file = ");
    reveal_strlit("config-file");
    let r = reference_line(p);
    let q = seq!['"'] + p + seq!['"'];
    assert(r =~= "config-file = "@ + q);
    assert forall|j: int| 0 <= j < 12 implies r[j] != '=' by {}
    text::lemma_first_index_at(r, '=', 12);
    let key = r.take(12);
    assert(key.drop_last() =~= "config-file"@);
    assert(text::trim_start(key) == key);
    assert(text::trim_end(key.drop_last()) == key.drop_last()) by {
        assert(key.drop_last().last() == 'e');
    }
    assert(text::trim(key) == "config-file"@);
    let value = r.skip(13);
    assert(value =~= seq![' '] + q);
    assert(value.drop_first() =~= q);
    assert(text::trim_start(value) == q) by {
        assert(text::trim_start(q) == q);
    }
    assert(text::trim_end(q) == q);
    assert(text::trim(value) == q);
    assert(q.drop_first() =~= p + seq!['"']);
    if p.len() == 0 {
        assert(trim_start_quotes(q) == trim_start_quotes(q.drop_first()));
        assert(q.drop_first().drop_first() =~= Seq::<char>::empty());
        assert(trim_start_quotes(q.drop_first()) == trim_start_quotes(Seq::<char>::empty()));
        assert(trim_quotes(q) =~= p);
    } else {
        assert(trim_start_quotes(p + seq!['"']) == p + seq!['"']) by {
            assert((p + seq!['"'])[0] == p[0]);
        }
        assert((p + seq!['"']).drop_last() =~= p);
        assert(trim_end_quotes(p) == p);
        assert(trim_quotes(q) == p);
    }
    assert(!text::has_char(r, '\n')) by {
        text::lemma_has_char_concat("config-file = "@ + seq!['"'], p, '\n');
        text::lemma_has_char_concat("config-file = "@ + seq!['"'] + p, seq!['"'], '\n');
        text::lemma_has_char_concat("config-file = "@, seq!['"'], '\n');
        if text::has_char("config-file = "@, '\n') {
            let k = choose|k: int| 0 <= k < 14 && "config-file = "@[k] == '\n';
        }
        if text::has_char(seq!['"'], '\n') {
            let k = choose|k: int| 0 <= k < 1 && seq!['"'][k] == '\n';
        }
    }
    assert(r.last() == '"');
}

/// Stripping a text made of reference-free lines plus the managed reference gives those
/// lines back.
proof fn lemma_strip_with_reference(ls: Seq<Seq<char>>, p: Seq<char>)
    requires
        no_reference(ls, p),
        referable_path(p),
    ensures
        stripped_lines(with_reference_lines(ls, p), p) == ls,
{
    lemma_header_facts(p);
    lemma_reference_line(p);
    let h = managed_header();
    let r = reference_line(p);
    let w = with_reference_lines(ls, p);
    let front = if ls.len() > 0 {
        ls.push(seq![])
    } else {
        ls
    };
    assert(no_reference(front, p)) by {
        assert forall|i: int| 0 <= i < front.len() implies !is_reference_line(#[trigger] front[i], p) by {
            if i < ls.len() {
                assert(front[i] == ls[i]);
            }
        }
    }
    lemma_stripped_identity(front, p);
    let fh = front.push(h);
    assert(w =~= fh.push(r));
    assert(w.drop_last() =~= fh);
    assert(fh.drop_last() =~= front);
    assert(stripped_lines(fh, p) == front.push(h));
    assert(drop_trailing_header(fh) =~= front);
    if ls.len() > 0 {
        assert(front.drop_last() =~= ls);
        assert(text::trim(front.last()).len() == 0) by {
            assert(front.last() =~= Seq::<char>::empty());
        }
        assert(drop_trailing_blank(front) =~= ls);
    } else {
        assert(drop_trailing_blank(front) =~= ls);
    }
}

proof fn lemma_with_reference_plain(ls: Seq<Seq<char>>, p: Seq<char>)
    requires
        text::plain_lines(ls),
        referable_path(p),
    ensures
        text::plain_lines(with_reference_lines(ls, p)),
{
    lemma_header_facts(p);
    lemma_reference_line(p);
    let w = with_reference_lines(ls, p);
    assert forall|i: int| 0 <= i < w.len() implies text::plain_line(#[trigger] w[i]) by {
        if i < ls.len() {
            assert(w[i] == ls[i]);
        }
    }
}

proof fn lemma_lines_of_render(ls: Seq<Seq<char>>)
    requires
        text::plain_lines(ls),
    ensures
        text::lines(text::render_lines(ls)) == ls,
{
    text::lemma_lines_render(ls, Seq::<char>::empty());
    assert(text::render_lines(ls) + Seq::<char>::empty() =~= text::render_lines(ls));
    assert(text::lines(Seq::<char>::empty()) =~= Seq::<Seq<char>>::empty());
    assert(ls + Seq::<Seq<char>>::empty() =~= ls);
}

/// Enabling the shortcut twice in a row changes Ghostty's configuration at most once: right
/// after enabling, a second sync leaves the file as it is.
pub proof fn law_enable_is_idempotent(existing: Option<Seq<char>>, include_path: Seq<char>)
    requires
        referable_path(include_path),
        existing matches Some(e) ==> plain_text(e),
    ensures
        next_ghostty_config(after_sync(existing, include_path, true), include_path, true) is None,
{
    let p = include_path;
    let kept = match existing {
        Some(e) => stripped_lines(text::lines(e), p),
        None => seq![],
    };
    match existing {
        Some(e) => {
            lemma_stripped_lines(text::lines(e), p);
        },
        None => {},
    }
    let n = text::render_lines(with_reference_lines(kept, p));
    assert(after_sync(existing, p, true) == Some(n));
    lemma_with_reference_plain(kept, p);
    lemma_lines_of_render(with_reference_lines(kept, p));
    lemma_strip_with_reference(kept, p);
}

/// After enabling, Ghostty's configuration refers to the shortcut file exactly once: in its last
/// line, right under the managed comment.
pub proof fn law_enable_adds_one_reference(existing: Option<Seq<char>>, include_path: Seq<char>)
    requires
        referable_path(include_path),
        existing matches Some(e) ==> plain_text(e),
    ensures
        after_sync(existing, include_path, true) matches Some(t) && {
            let ls = text::lines(t);
            &&& ls.len() >= 2
            &&& ls.last() == reference_line(include_path)
            &&& is_reference_line(ls.last(), include_path)
            &&& ls[ls.len() - 2] == managed_header()
            &&& no_reference(ls.drop_last(), include_path)
        },
{
    let p = include_path;
    let kept = match existing {
        Some(e) => stripped_lines(text::lines(e), p),
        None => seq![],
    };
    match existing {
        Some(e) => {
            lemma_stripped_lines(text::lines(e), p);
        },
        None => {},
    }
    let w = with_reference_lines(kept, p);
    let n = text::render_lines(w);
    assert(after_sync(existing, p, true) == Some(n));
    lemma_with_reference_plain(kept, p);
    lemma_lines_of_render(w);
    lemma_header_facts(p);
    lemma_reference_line(p);
    let d = w.drop_last();
    assert forall|i: int| 0 <= i < d.len() implies !is_reference_line(#[trigger] d[i], p) by {
        if i < kept.len() {
            assert(d[i] == kept[i]);
        }
    }
}

/// After disabling, no line of Ghostty's configuration refers to the shortcut file.
pub proof fn law_disable_removes_reference(existing: Option<Seq<char>>, include_path: Seq<char>)
    requires
        existing matches Some(e) ==> plain_text(e),
    ensures
        match after_sync(existing, include_path, false) {
            Some(t) => no_reference(text::lines(t), include_path),
            None => existing is None,
        },
{
    let p = include_path;
    match existing {
        Some(e) => {
            let kept = stripped_lines(text::lines(e), p);
            lemma_stripped_lines(text::lines(e), p);
            lemma_lines_of_render(kept);
            assert(after_sync(existing, p, false) == Some(text::render_lines(kept)));
        },
        None => {},
    }
}

/// Disabling right after enabling gives back the lines of a configuration that did not refer
/// to the shortcut file: every other setting is kept as it was.
pub proof fn law_disable_undoes_enable(existing: Seq<char>, include_path: Seq<char>)
    requires
        referable_path(include_path),
        plain_text(existing),
        no_reference(text::lines(existing), include_path),
    ensures
        after_sync(after_sync(Some(existing), include_path, true), include_path, false) matches Some(t)
            && text::lines(t) == text::lines(existing),
{
    let p = include_path;
    let ls = text::lines(existing);
    lemma_stripped_identity(ls, p);
    let w = with_reference_lines(ls, p);
    let n = text::render_lines(w);
    assert(after_sync(Some(existing), p, true) == Some(n));
    lemma_with_reference_plain(ls, p);
    lemma_lines_of_render(w);
    lemma_strip_with_reference(ls, p);
    assert(stripped_lines(text::lines(n), p) == ls);
    lemma_lines_of_render(ls);
    assert(after_sync(Some(n), p, false) == Some(text::render_lines(ls)));
}

/// Disabling twice in a row changes Ghostty's configuration at most once: right after
/// disabling, a second sync leaves the file as it is (or still absent).
pub proof fn law_disable_is_idempotent(existing: Option<Seq<char>>, include_path: Seq<char>)
    requires
        existing matches Some(e) ==> plain_text(e),
    ensures
        next_ghostty_config(after_sync(existing, include_path, false), include_path, false) is None,
{
    let p = include_path;
    match existing {
        Some(e) => {
            let kept = stripped_lines(text::lines(e), p);
            lemma_stripped_lines(text::lines(e), p);
            let n = text::render_lines(kept);
            if n != e {
                assert(after_sync(existing, p, false) == Some(n));
                lemma_lines_of_render(kept);
                lemma_stripped_identity(kept, p);
                assert(stripped_lines(text::lines(n), p) == kept);
            }
        },
        None => {},
    }
}

/// A sync, enabling or disabling, repeated right away changes nothing: the second sync leaves
/// Ghostty's configuration as the first left it (for a shortcut file path that a reference line
/// names faithfully, when enabling).
pub proof fn law_sync_is_idempotent(existing: Option<Seq<char>>, include_path: Seq<char>, enabled: bool)
    requires
        existing matches Some(e) ==> plain_text(e),
        enabled ==> referable_path(include_path),
    ensures
        next_ghostty_config(after_sync(existing, include_path, enabled), include_path, enabled) is None,
{
    if enabled {
        law_enable_is_idempotent(existing, include_path);
    } else {
        law_disable_is_idempotent(existing, include_path);
    }
}

// ---------------------------------------------------------------------------
// Executable functions
// ---------------------------------------------------------------------------

/// The keybind file for a shortcut: a managed-file comment, then either a note that
/// the shortcut is disabled or the `keybind = <shortcut>=text:gtab\x0d` line.
pub fn build_ghostty_shortcut_include(shortcut: &str) -> (r: String)
    ensures
        r@ == shortcut_include(shortcut@),
{
    let mut v = text::to_chars(
        "# Managed by gtab. Update this with `gtab init` or `gtab set ghostty_shortcut`.",
    );
    if config::is_shortcut_disabled(shortcut) {
        text::extend_str(&mut v, "\n# Ghostty-local shortcut is disabled.\n");
    } else {
        text::extend_str(
            &mut v,
            "\n# Default Ghostty-local shortcut: send `gtab` to the focused shell for same-tab launch.\nkeybind = ",
        );
        text::extend_str(&mut v, shortcut);
        text::extend_str(&mut v, "=text:gtab\\x0d\n");
    }
    text::from_chars(&v)
}

fn trim_quotes_chars(v: &Vec<char>) -> (r: Vec<char>)
    ensures
        r@ == trim_quotes(v@),
{
    let mut lo: usize = 0;
    assert(v@.skip(0) =~= v@);
    while lo < v.len() && v[lo] == '"'
        invariant
            lo <= v.len(),
            trim_start_quotes(v@) == trim_start_quotes(v@.skip(lo as int)),
        decreases v.len() - lo,
    {
        assert(v@.skip(lo as int).drop_first() =~= v@.skip(lo + 1));
        lo += 1;
    }
    let mut hi: usize = v.len();
    assert(v@.subrange(lo as int, v.len() as int) =~= v@.skip(lo as int));
    while hi > lo && v[hi - 1] == '"'
        invariant
            lo <= hi <= v.len(),
            trim_end_quotes(v@.skip(lo as int)) == trim_end_quotes(v@.subrange(lo as int, hi as int)),
        decreases hi,
    {
        assert(v@.subrange(lo as int, hi as int).drop_last() =~= v@.subrange(lo as int, hi - 1));
        hi -= 1;
    }
    text::slice(v, lo, hi)
}

fn is_reference_chars(line: &Vec<char>, include_path: &Vec<char>) -> (r: bool)
    ensures
        r == is_reference_line(line@, include_path@),
{
    let i = text::find_char_from(line, '=', 0);
    proof {
        text::lemma_first_index_at(line@, '=', i as int);
    }
    if i == line.len() {
        return false;
    }
    let key = text::trim_chars(&text::slice(line, 0, i));
    assert(line@.subrange(0, i as int) =~= line@.take(i as int));
    if !text::chars_eq_str(&key, "config-file") {
        return false;
    }
    let value = text::trim_chars(&text::slice(line, i + 1, line.len()));
    assert(line@.subrange(i + 1, line@.len() as int) =~= line@.skip(i + 1));
    let unquoted = trim_quotes_chars(&value);
    text::chars_eq(&unquoted, include_path)
}

/// Whether a configuration line is `config-file = "<include_path>"` (spaces around the key
/// and value and quotes around the value do not matter).
pub fn is_gtab_include_reference_line(line: &str, include_path: &str) -> (r: bool)
    ensures
        r == is_reference_line(line@, include_path@),
{
    is_reference_chars(&text::to_chars(line), &text::to_chars(include_path))
}

fn strip_reference_chars(lines: &Vec<Vec<char>>, include_path: &Vec<char>) -> (r: Vec<Vec<char>>)
    ensures
        text::views(r@) == stripped_lines(text::views(lines@), include_path@),
{
    let ghost all = text::views(lines@);
    let mut kept: Vec<Vec<char>> = Vec::new();
    let mut index: usize = 0;
    assert(all.take(0) =~= Seq::<Seq<char>>::empty());
    while index < lines.len()
        invariant
            index <= lines.len(),
            all == text::views(lines@),
            text::views(kept@) == stripped_lines(all.take(index as int), include_path@),
        decreases lines.len() - index,
    {
        let ghost pre = all.take(index as int);
        assert(all.take(index + 1).drop_last() =~= pre);
        assert(all.take(index + 1).last() == lines@[index as int]@);
        if is_reference_chars(&lines[index], include_path) {
            let ghost k0 = text::views(kept@);
            let n = kept.len();
            if n > 0 {
                let last = text::trim_chars(&kept[n - 1]);
                assert(k0.last() == kept@[n - 1]@);
                if text::chars_eq(&last, &managed_header_chars()) {
                    kept.pop();
                    assert(text::views(kept@) =~= k0.drop_last());
                }
            }
            let ghost k1 = text::views(kept@);
            assert(k1 == drop_trailing_header(k0));
            let n = kept.len();
            if n > 0 {
                let last = text::trim_chars(&kept[n - 1]);
                assert(k1.last() == kept@[n - 1]@);
                if last.len() == 0 {
                    kept.pop();
                    assert(text::views(kept@) =~= k1.drop_last());
                }
            }
            assert(text::views(kept@) == drop_trailing_blank(k1));
        } else {
            let ghost k0 = text::views(kept@);
            kept.push(text::slice(&lines[index], 0, lines[index].len()));
            assert(lines@[index as int]@.subrange(0, lines@[index as int]@.len() as int) =~= lines@[index as int]@);
            assert(text::views(kept@) =~= k0.push(lines@[index as int]@));
        }
        index += 1;
    }
    assert(all.take(lines.len() as int) =~= all);
    kept
}

fn chars_lines(lines: &Vec<String>) -> (r: Vec<Vec<char>>)
    ensures
        text::views(r@) == strings_view(lines@),
{
    let mut r: Vec<Vec<char>> = Vec::new();
    for i in 0..lines.len()
        invariant
            text::views(r@) == strings_view(lines@).take(i as int),
    {
        let ghost before = text::views(r@);
        let c = text::to_chars(lines[i].as_str());
        assert(c@ == strings_view(lines@)[i as int]);
        r.push(c);
        assert(text::views(r@) =~= before.push(c@));
        assert(text::views(r@) =~= strings_view(lines@).take(i + 1));
    }
    assert(strings_view(lines@).take(lines.len() as int) =~= strings_view(lines@));
    r
}

fn string_lines(lines: &Vec<Vec<char>>) -> (r: Vec<String>)
    ensures
        strings_view(r@) == text::views(lines@),
{
    let mut r: Vec<String> = Vec::new();
    for i in 0..lines.len()
        invariant
            strings_view(r@) == text::views(lines@).take(i as int),
    {
        let ghost before = strings_view(r@);
        let c = text::from_chars(&lines[i]);
        assert(c@ == text::views(lines@)[i as int]);
        r.push(c);
        assert(strings_view(r@) =~= before.push(c@));
        assert(strings_view(r@) =~= text::views(lines@).take(i + 1));
    }
    assert(text::views(lines@).take(lines.len() as int) =~= text::views(lines@));
    r
}

/// The lines with every reference to the shortcut file removed; a reference also takes away the
/// managed comment right above it and then a blank line above that.
pub fn strip_gtab_include_reference(lines: &Vec<String>, include_path: &str) -> (r: Vec<String>)
    ensures
        strings_view(r@) == stripped_lines(strings_view(lines@), include_path@),
{
    let ls = chars_lines(lines);
    let kept = strip_reference_chars(&ls, &text::to_chars(include_path));
    string_lines(&kept)
}

fn render_chars(lines: &Vec<Vec<char>>) -> (r: Vec<char>)
    ensures
        r@ == text::render_lines(text::views(lines@)),
{
    let mut out: Vec<char> = Vec::new();
    for i in 0..lines.len()
        invariant
            out@ == text::render_lines(text::views(lines@).take(i as int)),
    {
        let ghost before = out@;
        text::extend(&mut out, &lines[i]);
        out.push('\n');
        proof {
            let a = text::views(lines@).take(i as int);
            let x = text::views(lines@)[i as int];
            text::lemma_render_concat(a, seq![x]);
            assert(text::views(lines@).take(i + 1) =~= a + seq![x]);
            text::lemma_render_single(x);
            assert(out@ =~= before + (x + seq!['\n']));
        }
    }
    assert(text::views(lines@).take(lines.len() as int) =~= text::views(lines@));
    out
}

/// The configuration lines as a file: each line followed by a newline (nothing for no lines).
pub fn render_ghostty_config(lines: &Vec<String>) -> (r: String)
    ensures
        r@ == text::render_lines(strings_view(lines@)),
{
    text::from_chars(&render_chars(&chars_lines(lines)))
}

proof fn lemma_render_len(ls: Seq<Seq<char>>)
    ensures
        text::render_lines(ls).len() >= ls.len(),
    decreases ls.len(),
{
    if ls.len() > 0 {
        lemma_render_len(ls.drop_first());
    }
}

fn render_with_reference_chars(lines: &Vec<Vec<char>>, include_path: &Vec<char>) -> (r: Vec<char>)
    ensures
        r@ == text::render_lines(with_reference_lines(text::views(lines@), include_path@)),
{
    let ghost ls = text::views(lines@);
    let mut next = render_chars(lines);
    proof {
        lemma_render_len(ls);
        if ls.len() == 0 {
            assert(ls =~= Seq::<Seq<char>>::empty());
        }
    }
    let ghost base = next@;
    if next.len() > 0 {
        next.push('\n');
    }
    text::extend(&mut next, &managed_header_chars());
    next.push('\n');
    text::extend_str(&mut next, "config-file = ");
    next.push('"');
    text::extend(&mut next, include_path);
    next.push('"');
    next.push('\n');
    proof {
        let tail = seq![managed_header(), reference_line(include_path@)];
        let front = if ls.len() > 0 {
            ls.push(seq![])
        } else {
            ls
        };
        text::lemma_render_concat(front, tail);
        if ls.len() > 0 {
            text::lemma_render_concat(ls, seq![Seq::<char>::empty()]);
            text::lemma_render_single(Seq::<char>::empty());
            assert(ls.push(seq![]) =~= ls + seq![Seq::<char>::empty()]);
        }
        text::lemma_render_single(reference_line(include_path@));
        assert(tail.drop_first() =~= seq![reference_line(include_path@)]);
        assert(text::render_lines(tail) =~= managed_header() + seq!['\n'] + (reference_line(include_path@) + seq!['\n']));
        assert(next@ =~= text::render_lines(front) + text::render_lines(tail));
    }
    next
}

/// The configuration lines as a file, followed by a blank line (when there are lines), the
/// managed comment and `config-file = "<include_path>"`.
pub fn render_ghostty_config_with_gtab_include(lines: &Vec<String>, include_path: &str) -> (r: String)
    ensures
        r@ == text::render_lines(with_reference_lines(strings_view(lines@), include_path@)),
{
    let ls = chars_lines(lines);
    text::from_chars(&render_with_reference_chars(&ls, &text::to_chars(include_path)))
}

/// The new text of Ghostty's configuration file after adding (`enabled`) or removing the
/// reference to the shortcut file, or `None` when the file is to be left as it is. `existing` is
/// the file's text, `None` when there is no such file: then a file is made only to add the
/// reference.
pub fn sync_ghostty_include_reference(existing: Option<&str>, include_path: &str, enabled: bool) -> (r: Option<String>)
    ensures
        text::opt_chars(r) == next_ghostty_config(
            match existing {
                Some(e) => Some(e@),
                None => None,
            },
            include_path@,
            enabled,
        ),
{
    let p = text::to_chars(include_path);
    match existing {
        None => {
            if enabled {
                let empty: Vec<Vec<char>> = Vec::new();
                assert(text::views(empty@) =~= Seq::<Seq<char>>::empty());
                Some(text::from_chars(&render_with_reference_chars(&empty, &p)))
            } else {
                None
            }
        },
        Some(e) => {
            let ev = text::to_chars(e);
            let ls = text::split_lines(&ev);
            let kept = strip_reference_chars(&ls, &p);
            let next = if enabled {
                render_with_reference_chars(&kept, &p)
            } else {
                render_chars(&kept)
            };
            if text::chars_eq(&next, &ev) {
                None
            } else {
                Some(text::from_chars(&next))
            }
        },
    }
}

} // verus!
