//! The workspace list: the saved workspaces found in the workspace directory, ordered by
//! their lowercased names.
use vstd::prelude::*;

use crate::env::{self, AppEnv, Workspace};
use crate::script;
use crate::script_laws;
use crate::splits;
use crate::text;

verus! {

/// A file found in the workspace directory: its file name, its path, and its text when it
/// was read.
#[derive(Debug)]
pub struct WorkspaceFile {
    pub file_name: String,
    pub path: String,
    pub content: Option<String>,
}

/// A workspace as a value: its name, its path and its tabs (title, working directory).
pub type WorkspaceView = (Seq<char>, Seq<char>, Seq<(Seq<char>, Option<Seq<char>>)>);

pub open spec fn workspace_view(w: Workspace) -> WorkspaceView {
    (w.name@, w.path@, script::tabs_view(w.tabs@))
}

pub open spec fn workspaces_view(ws: Seq<Workspace>) -> Seq<WorkspaceView> {
    Seq::new(ws.len(), |i: int| workspace_view(ws[i]))
}

// ---------------------------------------------------------------------------
// Order
// ---------------------------------------------------------------------------

/// `a` sorts no later than `b` when strings are compared as `str` compares them: character by
/// character by code point, a prefix first.
pub open spec fn chars_le(a: Seq<char>, b: Seq<char>) -> bool
    decreases a.len(),
{
    if a.len() == 0 {
        true
    } else if b.len() == 0 {
        false
    } else if a[0] != b[0] {
        (a[0] as u32) < (b[0] as u32)
    } else {
        chars_le(a.drop_first(), b.drop_first())
    }
}

/// The key a workspace is ordered by: its lowercased name.
pub open spec fn view_key(v: WorkspaceView) -> Seq<char> {
    text::lower_text(v.0)
}

/// `v` put into `s` after every entry whose key is no greater than its own, counting from the
/// end: into a list sorted by key it goes after the last entry with a key no greater.
pub open spec fn insert_by_name(s: Seq<WorkspaceView>, v: WorkspaceView) -> Seq<WorkspaceView>
    decreases s.len(),
{
    if s.len() == 0 {
        seq![v]
    } else if chars_le(view_key(s.last()), view_key(v)) {
        s.push(v)
    } else {
        insert_by_name(s.drop_last(), v).push(s.last())
    }
}

/// The workspaces in the order of their keys; workspaces with equal keys keep their order.
pub open spec fn sorted_by_name(s: Seq<WorkspaceView>) -> Seq<WorkspaceView>
    decreases s.len(),
{
    if s.len() == 0 {
        seq![]
    } else {
        insert_by_name(sorted_by_name(s.drop_last()), s.last())
    }
}

pub open spec fn is_sorted_by_name(s: Seq<WorkspaceView>) -> bool {
    forall|i: int, j: int| 0 <= i < j < s.len() ==> chars_le(#[trigger] view_key(s[i]), #[trigger] view_key(s[j]))
}

/// The workspaces saved in `files`, in the files' order: each file named
/// "<name>.applescript" gives workspace `<name>` with the tabs its script describes (none
/// when it could not be read).
pub open spec fn found_workspaces(files: Seq<WorkspaceFile>, home: Seq<char>) -> Seq<WorkspaceView>
    decreases files.len(),
{
    if files.len() == 0 {
        seq![]
    } else {
        let f = files.last();
        let rest = found_workspaces(files.drop_last(), home);
        match env::workspace_name_of_file(f.file_name@) {
            Some(n) => rest.push(
                (
                    n,
                    f.path@,
                    match f.content {
                        Some(c) => script::workspace_tabs(c@, home),
                        None => seq![],
                    },
                ),
            ),
            None => rest,
        }
    }
}

/// Every workspace script among `files` names tabs from 1 up.
pub open spec fn readable_scripts(files: Seq<WorkspaceFile>) -> bool {
    forall|k: int|
        0 <= k < files.len() && (#[trigger] env::workspace_name_of_file(files[k].file_name@)) is Some ==> match files[k].content {
            Some(c) => script::indices_positive(text::lines(c@)),
            None => true,
        }
}

// ---------------------------------------------------------------------------
// Lemmas
// ---------------------------------------------------------------------------

pub proof fn lemma_chars_le_total(a: Seq<char>, b: Seq<char>)
    ensures
        chars_le(a, b) || chars_le(b, a),
    decreases a.len(),
{
    if a.len() > 0 && b.len() > 0 {
        if a[0] == b[0] {
            lemma_chars_le_total(a.drop_first(), b.drop_first());
        } else {
            vstd::utf8::char_u32_cast(a[0], a[0] as u32);
            vstd::utf8::char_u32_cast(b[0], b[0] as u32);
        }
    }
}

pub proof fn lemma_chars_le_trans(a: Seq<char>, b: Seq<char>, c: Seq<char>)
    requires
        chars_le(a, b),
        chars_le(b, c),
    ensures
        chars_le(a, c),
    decreases a.len(),
{
    if a.len() > 0 && b.len() > 0 && c.len() > 0 && a[0] == b[0] && b[0] == c[0] {
        lemma_chars_le_trans(a.drop_first(), b.drop_first(), c.drop_first());
    }
}

/// Inserting keeps every key under a bound that all keys were under.
pub proof fn lemma_insert_bounded(s: Seq<WorkspaceView>, v: WorkspaceView, b: Seq<char>)
    requires
        forall|k: int| 0 <= k < s.len() ==> chars_le(#[trigger] view_key(s[k]), b),
        chars_le(view_key(v), b),
    ensures
        forall|k: int| 0 <= k < insert_by_name(s, v).len() ==> chars_le(#[trigger] view_key(insert_by_name(s, v)[k]), b),
    decreases s.len(),
{
    if s.len() > 0 && !chars_le(view_key(s.last()), view_key(v)) {
        let d = s.drop_last();
        assert forall|k: int| 0 <= k < d.len() implies chars_le(#[trigger] view_key(d[k]), b) by {
            assert(d[k] == s[k]);
        }
        lemma_insert_bounded(d, v, b);
        let r = insert_by_name(d, v);
        assert forall|k: int| 0 <= k < r.push(s.last()).len() implies chars_le(
            #[trigger] view_key(r.push(s.last())[k]),
            b,
        ) by {
            if k < r.len() {
                assert(r.push(s.last())[k] == r[k]);
            }
        }
    }
}

pub proof fn lemma_insert_len(s: Seq<WorkspaceView>, v: WorkspaceView)
    ensures
        insert_by_name(s, v).len() == s.len() + 1,
    decreases s.len(),
{
    if s.len() > 0 && !chars_le(view_key(s.last()), view_key(v)) {
        lemma_insert_len(s.drop_last(), v);
    }
}

/// Inserting into a sorted list keeps it sorted.
pub proof fn lemma_insert_sorted(s: Seq<WorkspaceView>, v: WorkspaceView)
    requires
        is_sorted_by_name(s),
    ensures
        is_sorted_by_name(insert_by_name(s, v)),
    decreases s.len(),
{
    if s.len() == 0 {
    } else if chars_le(view_key(s.last()), view_key(v)) {
        let r = s.push(v);
        assert forall|i: int, j: int| 0 <= i < j < r.len() implies chars_le(
            #[trigger] view_key(r[i]),
            #[trigger] view_key(r[j]),
        ) by {
            assert(r[i] == s[i]);
            if j < s.len() {
                assert(r[j] == s[j]);
            } else if i < s.len() - 1 {
                assert(chars_le(view_key(s[i]), view_key(s[s.len() - 1])));
                lemma_chars_le_trans(view_key(s[i]), view_key(s.last()), view_key(v));
            }
        }
    } else {
        let d = s.drop_last();
        let l = s.last();
        assert forall|i: int, j: int| 0 <= i < j < d.len() implies chars_le(
            #[trigger] view_key(d[i]),
            #[trigger] view_key(d[j]),
        ) by {
            assert(d[i] == s[i] && d[j] == s[j]);
        }
        lemma_insert_sorted(d, v);
        lemma_chars_le_total(view_key(l), view_key(v));
        assert forall|k: int| 0 <= k < d.len() implies chars_le(#[trigger] view_key(d[k]), view_key(l)) by {
            assert(d[k] == s[k]);
            assert(chars_le(view_key(s[k]), view_key(s[s.len() - 1])));
        }
        lemma_insert_bounded(d, v, view_key(l));
        let r = insert_by_name(d, v);
        let t = r.push(l);
        assert forall|i: int, j: int| 0 <= i < j < t.len() implies chars_le(
            #[trigger] view_key(t[i]),
            #[trigger] view_key(t[j]),
        ) by {
            assert(t[i] == r[i]);
            if j < r.len() {
                assert(t[j] == r[j]);
            } else {
                assert(t[j] == l);
                assert(chars_le(view_key(r[i]), view_key(l)));
            }
        }
    }
}

pub proof fn lemma_insert_multiset(s: Seq<WorkspaceView>, v: WorkspaceView)
    ensures
        insert_by_name(s, v).to_multiset() =~= s.to_multiset().insert(v),
    decreases s.len(),
{
    broadcast use vstd::seq_lib::group_to_multiset_ensures;

    if s.len() == 0 {
        assert(seq![v] =~= Seq::<WorkspaceView>::empty().push(v));
    } else if !chars_le(view_key(s.last()), view_key(v)) {
        let d = s.drop_last();
        lemma_insert_multiset(d, v);
        assert(s =~= d.push(s.last()));
    }
}

/// Where an entry goes: after the last entry whose key is no greater than its own.
pub proof fn lemma_insert_at(s: Seq<WorkspaceView>, v: WorkspaceView, p: int)
    requires
        0 <= p <= s.len(),
        p == 0 || chars_le(view_key(s[p - 1]), view_key(v)),
        forall|q: int| p <= q < s.len() ==> !chars_le(#[trigger] view_key(s[q]), view_key(v)),
    ensures
        insert_by_name(s, v) == s.insert(p, v),
    decreases s.len(),
{
    if s.len() == 0 {
        assert(s.insert(p, v) =~= seq![v]);
    } else if p == s.len() {
        assert(s.insert(p, v) =~= s.push(v));
    } else {
        let d = s.drop_last();
        assert(!chars_le(view_key(s[s.len() - 1]), view_key(v)));
        assert forall|q: int| p <= q < d.len() implies !chars_le(#[trigger] view_key(d[q]), view_key(v)) by {
            assert(d[q] == s[q]);
            assert(!chars_le(view_key(s[q]), view_key(v)));
        }
        if p > 0 {
            assert(d[p - 1] == s[p - 1]);
        }
        lemma_insert_at(d, v, p);
        assert(d.insert(p, v).push(s.last()) =~= s.insert(p, v));
    }
}

// ---------------------------------------------------------------------------
// Laws
// ---------------------------------------------------------------------------

/// The workspace list is in order of lowercased names and holds exactly the workspaces found.
pub proof fn law_sorted_by_name(s: Seq<WorkspaceView>)
    ensures
        is_sorted_by_name(sorted_by_name(s)),
        sorted_by_name(s).to_multiset() =~= s.to_multiset(),
        sorted_by_name(s).len() == s.len(),
    decreases s.len(),
{
    broadcast use vstd::seq_lib::group_to_multiset_ensures;

    if s.len() > 0 {
        let d = s.drop_last();
        law_sorted_by_name(d);
        lemma_insert_sorted(sorted_by_name(d), s.last());
        lemma_insert_multiset(sorted_by_name(d), s.last());
        lemma_insert_len(sorted_by_name(d), s.last());
        assert(s =~= d.push(s.last()));
    }
}

/// A workspace saved under a valid name is found again under that name.
pub proof fn law_saved_name_is_listed(name: Seq<char>)
    requires
        env::workspace_name_check(name) is None,
    ensures
        env::workspace_name_of_file(name + ".applescript"@) == Some(name),
{
    reveal_strlit(".applescript");
    let ext = ".applescript"@;
    let f = name + ext;
    if name.len() == 0 {
        assert(text::trim(name) =~= Seq::<char>::empty());
    }
    assert(f.skip(f.len() - ext.len()) =~= ext);
    assert(f.take(f.len() - ext.len()) =~= name);
}

/// What saving writes, listing reads back: the file saved for a valid workspace name, holding
/// the script for the captured tabs, is listed under that name with the tabs that were saved
/// (for directories and titles that are each one line).
pub proof fn law_saved_workspace_is_listed(
    name: Seq<char>,
    file: WorkspaceFile,
    rows: Seq<(Seq<char>, Seq<char>)>,
    home: Seq<char>,
)
    requires
        env::workspace_name_check(name) is None,
        file.file_name@ == name + ".applescript"@,
        file.content matches Some(c) && c@ == script::workspace_script(rows),
        rows.len() <= usize::MAX,
        script_laws::single_line_rows(rows),
    ensures
        readable_scripts(seq![file]),
        found_workspaces(seq![file], home) == seq![(name, file.path@, script_laws::saved_tabs(rows, home))],
{
    law_saved_name_is_listed(name);
    script_laws::law_script_round_trip(rows, home);
    let files = seq![file];
    assert(files.drop_last() =~= Seq::<WorkspaceFile>::empty());
    assert(files.last() == file);
    assert(found_workspaces(Seq::<WorkspaceFile>::empty(), home) =~= Seq::<WorkspaceView>::empty());
    let c = file.content.unwrap();
    assert(found_workspaces(files, home) == found_workspaces(Seq::<WorkspaceFile>::empty(), home).push(
        (name, file.path@, script::workspace_tabs(c@, home)),
    ));
}

/// The same holds of a workspace saved with its split panes: the split lines do not change the
/// tabs it is listed with.
pub proof fn law_saved_split_workspace_is_listed(
    name: Seq<char>,
    file: WorkspaceFile,
    rows: Seq<(Seq<char>, Seq<char>)>,
    panes: Seq<splits::PaneRow>,
    home: Seq<char>,
)
    requires
        env::workspace_name_check(name) is None,
        file.file_name@ == name + ".applescript"@,
        file.content matches Some(c) && c@ == script::workspace_script_with(rows, splits::layout_lines(panes, rows.len())),
        rows.len() <= usize::MAX,
        script_laws::single_line_rows(rows),
        forall|k: int| 0 <= k < panes.len() ==> !text::has_char(#[trigger] panes[k].working_dir@, '\n'),
    ensures
        readable_scripts(seq![file]),
        found_workspaces(seq![file], home) == seq![(name, file.path@, script_laws::saved_tabs(rows, home))],
{
    law_saved_name_is_listed(name);
    script_laws::law_split_script_round_trip(rows, panes, home);
    let files = seq![file];
    assert(files.drop_last() =~= Seq::<WorkspaceFile>::empty());
    assert(files.last() == file);
    assert(found_workspaces(Seq::<WorkspaceFile>::empty(), home) =~= Seq::<WorkspaceView>::empty());
    let c = file.content.unwrap();
    assert(found_workspaces(files, home) == found_workspaces(Seq::<WorkspaceFile>::empty(), home).push(
        (name, file.path@, script::workspace_tabs(c@, home)),
    ));
}

// ---------------------------------------------------------------------------
// Executable functions
// ---------------------------------------------------------------------------

/// Whether `a` sorts no later than `b` (see `chars_le`).
pub fn chars_le_exec(a: &Vec<char>, b: &Vec<char>) -> (r: bool)
    ensures
        r == chars_le(a@, b@),
{
    let mut i: usize = 0;
    assert(a@.skip(0) =~= a@);
    assert(b@.skip(0) =~= b@);
    while i < a.len() && i < b.len()
        invariant
            i <= a.len(),
            i <= b.len(),
            chars_le(a@, b@) == chars_le(a@.skip(i as int), b@.skip(i as int)),
        decreases a.len() - i,
    {
        if a[i] != b[i] {
            return (a[i] as u32) < (b[i] as u32);
        }
        assert(a@.skip(i as int).drop_first() =~= a@.skip(i + 1));
        assert(b@.skip(i as int).drop_first() =~= b@.skip(i + 1));
        i += 1;
    }
    i == a.len()
}

/// Orders workspaces by lowercased name; workspaces with equal keys keep their order.
pub fn sort_workspaces(ws: Vec<Workspace>) -> (r: Vec<Workspace>)
    ensures
        workspaces_view(r@) == sorted_by_name(workspaces_view(ws@)),
{
    let ghost orig = workspaces_view(ws@);
    let mut rest = ws;
    let mut out: Vec<Workspace> = Vec::new();
    let mut keys: Vec<Vec<char>> = Vec::new();
    let ghost mut k: int = 0;
    assert(orig.take(0) =~= Seq::<WorkspaceView>::empty());
    assert(workspaces_view(out@) =~= Seq::<WorkspaceView>::empty());
    assert(orig.skip(0) =~= workspaces_view(rest@));
    while rest.len() > 0
        invariant
            0 <= k <= orig.len(),
            workspaces_view(out@) == sorted_by_name(orig.take(k)),
            workspaces_view(rest@) == orig.skip(k),
            keys@.len() == out@.len(),
            forall|i: int| 0 <= i < keys@.len() ==> #[trigger] keys@[i]@ == view_key(workspace_view(out@[i])),
        decreases rest.len(),
    {
        let ghost ov = workspaces_view(out@);
        let ghost old_rest = rest@;
        let w = rest.remove(0);
        proof {
            assert(old_rest.len() > 0);
            assert(orig.skip(k).len() == old_rest.len());
            assert(k < orig.len());
            assert(w == old_rest[0]);
            assert(workspaces_view(old_rest)[0] == workspace_view(old_rest[0]));
            assert(workspaces_view(old_rest)[0] == orig.skip(k)[0]);
            assert(orig.skip(k)[0] == orig[k]);
            assert(workspace_view(w) == orig[k]);
            assert forall|j: int| 0 <= j < rest@.len() implies #[trigger] workspaces_view(rest@)[j] == orig.skip(
                k + 1,
            )[j] by {
                assert(rest@[j] == old_rest[j + 1]);
                assert(workspaces_view(old_rest)[j + 1] == orig.skip(k)[j + 1]);
            }
            assert(workspaces_view(rest@) =~= orig.skip(k + 1));
        }
        let key = text::lowercase_chars(&text::to_chars(w.name.as_str()));
        let mut p: usize = out.len();
        while p > 0
            invariant
                p <= out.len(),
                ov == workspaces_view(out@),
                keys@.len() == out@.len(),
                forall|i: int| 0 <= i < keys@.len() ==> #[trigger] keys@[i]@ == view_key(workspace_view(out@[i])),
                key@ == view_key(workspace_view(w)),
                forall|q: int| p <= q < ov.len() ==> !chars_le(#[trigger] view_key(ov[q]), key@),
            ensures
                p <= out.len(),
                p == 0 || chars_le(view_key(ov[p - 1]), key@),
                forall|q: int| p <= q < ov.len() ==> !chars_le(#[trigger] view_key(ov[q]), key@),
            decreases p,
        {
            assert(keys@[p - 1]@ == view_key(workspace_view(out@[p - 1])));
            assert(ov[p - 1] == workspace_view(out@[p - 1]));
            if chars_le_exec(&keys[p - 1], &key) {
                break;
            }
            p -= 1;
        }
        proof {
            lemma_insert_at(ov, workspace_view(w), p as int);
            assert(orig.take(k + 1).drop_last() =~= orig.take(k));
            assert(orig.take(k + 1).last() == orig[k]);
        }
        let ghost old_keys = keys@;
        let ghost old_out = out@;
        out.insert(p, w);
        keys.insert(p, key);
        proof {
            assert(workspaces_view(out@) =~= ov.insert(p as int, workspace_view(w)));
            assert forall|i: int| 0 <= i < keys@.len() implies #[trigger] keys@[i]@ == view_key(
                workspace_view(out@[i]),
            ) by {
                if i < p {
                    assert(keys@[i] == old_keys[i] && out@[i] == old_out[i]);
                } else if i > p {
                    assert(keys@[i] == old_keys[i - 1] && out@[i] == old_out[i - 1]);
                }
            }
            k = k + 1;
        }
    }
    assert(orig.take(k) =~= orig);
    out
}

impl AppEnv {
    /// The saved workspaces among the files of the workspace directory (see
    /// `found_workspaces`), ordered by lowercased name; `home` is the home directory, used to
    /// name untitled tabs.
    pub fn list_workspaces(&self, files: Vec<WorkspaceFile>, home: &str) -> (r: Vec<Workspace>)
        requires
            readable_scripts(files@),
        ensures
            workspaces_view(r@) == sorted_by_name(found_workspaces(files@, home@)),
    {
        let mut found: Vec<Workspace> = Vec::new();
        assert(files@.take(0) =~= Seq::<WorkspaceFile>::empty());
        assert(workspaces_view(found@) =~= Seq::<WorkspaceView>::empty());
        for i in 0..files.len()
            invariant
                readable_scripts(files@),
                workspaces_view(found@) == found_workspaces(files@.take(i as int), home@),
        {
            let f = &files[i];
            assert(files@.take(i + 1).drop_last() =~= files@.take(i as int));
            assert(files@.take(i + 1).last() == files@[i as int]);
            match env::workspace_name_from_file(f.file_name.as_str()) {
                Some(n) => {
                    assert(env::workspace_name_of_file(files@[i as int].file_name@) is Some);
                    let content: Option<&str> = match &f.content {
                        Some(c) => Some(c.as_str()),
                        None => None,
                    };
                    let w = env::workspace_from_file(n.as_str(), f.path.as_str(), content, home);
                    let ghost before = found@;
                    found.push(w);
                    assert(workspaces_view(found@) =~= workspaces_view(before).push(workspace_view(w)));
                },
                None => {},
            }
        }
        assert(files@.take(files.len() as int) =~= files@);
        sort_workspaces(found)
    }
}

} // verus!
