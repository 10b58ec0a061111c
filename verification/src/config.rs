//! The settings file: `close_tab` and `ghostty_shortcut`, one `key=value` per line.
use vstd::prelude::*;

use crate::error::GtabError;
use crate::text;

verus! {

/// The user's settings.
#[derive(Debug)]
pub struct Config {
    /// Close the launching tab after a workspace is launched.
    pub close_tab: bool,
    /// The Ghostty-local shortcut, normalized, or "off".
    pub ghostty_shortcut: String,
}

// ---------------------------------------------------------------------------
// Specifications
// ---------------------------------------------------------------------------

pub open spec fn config_view(c: Config) -> (bool, Seq<char>) {
    (c.close_tab, c.ghostty_shortcut@)
}

pub open spec fn default_config() -> (bool, Seq<char>) {
    (false, "cmd+g"@)
}

/// A shortcut that turns the Ghostty-local shortcut off.
pub open spec fn shortcut_disabled(s: Seq<char>) -> bool {
    let t = text::trim(s);
    t == "off"@ || t == "none"@ || t == "disabled"@
}

/// A shortcut as stored: trimmed and lowercased, any of the "off" words as "off".
pub open spec fn normalized_shortcut(s: Seq<char>) -> Result<Seq<char>, GtabError> {
    let n = text::lower_text(text::trim(s));
    if n.len() == 0 {
        Err(GtabError::EmptyGhosttyShortcut)
    } else if shortcut_disabled(n) {
        Ok("off"@)
    } else if text::has_char(n, '=') || text::has_char(n, '\n') || text::has_char(n, '\r') {
        Err(GtabError::InvalidGhosttyShortcut)
    } else {
        Ok(n)
    }
}

/// What one settings line does to the settings read so far.
pub open spec fn config_line_step(c: (bool, Seq<char>), line: Seq<char>) -> Result<
    (bool, Seq<char>),
    GtabError,
> {
    let i = text::first_index(line, '=');
    if i < 0 {
        Ok(c)
    } else {
        let key = text::trim(line.take(i));
        let value = text::trim(line.skip(i + 1));
        if key == "close_tab"@ {
            Ok((value == "true"@ || value == "on"@, c.1))
        } else if key == "ghostty_shortcut"@ && value.len() > 0 {
            match normalized_shortcut(value) {
                Ok(n) => Ok((c.0, n)),
                Err(e) => Err(e),
            }
        } else {
            Ok(c)
        }
    }
}

/// The settings read from lines, starting from the defaults; the first bad shortcut stops it.
pub open spec fn config_from_lines(ls: Seq<Seq<char>>) -> Result<(bool, Seq<char>), GtabError>
    decreases ls.len(),
{
    if ls.len() == 0 {
        Ok(default_config())
    } else {
        match config_from_lines(ls.drop_last()) {
            Ok(c) => config_line_step(c, ls.last()),
            Err(e) => Err(e),
        }
    }
}

/// The settings in a settings file; no file means the defaults.
pub open spec fn config_from_file(raw: Option<Seq<char>>) -> Result<(bool, Seq<char>), GtabError> {
    match raw {
        None => Ok(default_config()),
        Some(r) => config_from_lines(text::lines(r)),
    }
}

pub open spec fn bool_text(b: bool) -> Seq<char> {
    if b {
        "true"@
    } else {
        "false"@
    }
}

/// The settings file's lines for the settings.
pub open spec fn config_lines(c: (bool, Seq<char>)) -> Seq<Seq<char>> {
    seq!["close_tab="@ + bool_text(c.0), "ghostty_shortcut="@ + c.1]
}

/// The settings file's text for the settings.
pub open spec fn serialized_config(c: (bool, Seq<char>)) -> Seq<char> {
    text::render_lines(config_lines(c))
}

/// Once reading stops on an error, the lines after it do not matter.
pub proof fn lemma_config_error_sticks(ls: Seq<Seq<char>>, k: int)
    requires
        0 <= k <= ls.len(),
        config_from_lines(ls.take(k)) is Err,
    ensures
        config_from_lines(ls) == config_from_lines(ls.take(k)),
    decreases ls.len() - k,
{
    if k < ls.len() {
        assert(ls.take(k + 1).drop_last() =~= ls.take(k));
        lemma_config_error_sticks(ls, k + 1);
    } else {
        assert(ls.take(k) =~= ls);
    }
}

/// A normalized ASCII shortcut is its own trim.
pub proof fn lemma_normal_ascii_trimmed(s: Seq<char>)
    requires
        text::is_ascii_text(s),
        normalized_shortcut(s) == Ok::<Seq<char>, GtabError>(s),
    ensures
        text::trim(s) == s,
{
    let t = text::trim(s);
    text::lemma_trim_ends(s);
    let n = text::lower_text(t);
    assert(n == text::ascii_lowercase(t));
    if shortcut_disabled(n) {
        reveal_strlit("off");
        assert(s == "off"@);
        text::lemma_trim_fixed(s);
    } else {
        assert(s == n);
        assert(n.len() == t.len() && t.len() > 0);
        text::lemma_ascii_lower_ws(t[0]);
        text::lemma_ascii_lower_ws(t[t.len() - 1]);
        assert(s[0] == text::ascii_lower_char(t[0]));
        assert(s.last() == text::ascii_lower_char(t.last()));
        text::lemma_trim_fixed(s);
    }
}

/// Saving the settings and reading the file back gives the same settings, whenever the
/// shortcut is one that normalization leaves as it is (the form every accepted shortcut is
/// stored in) and is ASCII text, or already trimmed.
pub proof fn law_config_round_trip(c: (bool, Seq<char>))
    requires
        normalized_shortcut(c.1) == Ok::<Seq<char>, GtabError>(c.1),
        text::is_ascii_text(c.1) || text::trim(c.1) == c.1,
    ensures
        config_from_file(Some(serialized_config(c))) == Ok::<(bool, Seq<char>), GtabError>(c),
{
    if text::is_ascii_text(c.1) {
        lemma_normal_ascii_trimmed(c.1);
    }
    reveal_strlit("close_tab=");
    reveal_strlit("close_tab");
    reveal_strlit("ghostty_shortcut=");
    reveal_strlit("ghostty_shortcut");
    reveal_strlit("true");
    reveal_strlit("false");
    reveal_strlit("on");
    reveal_strlit("off");
    let sc = c.1;
    let n = text::lower_text(text::trim(sc));
    // The stored shortcut has no line breaks, no carriage return and is not empty.
    assert(sc.len() > 0 && !text::has_char(sc, '\n') && !text::has_char(sc, '\r')) by {
        if shortcut_disabled(n) {
            assert(sc == "off"@);
            if text::has_char(sc, '\n') {
                let k = choose|k: int| 0 <= k < sc.len() && sc[k] == '\n';
            }
            if text::has_char(sc, '\r') {
                let k = choose|k: int| 0 <= k < sc.len() && sc[k] == '\r';
            }
        }
    }
    let l1 = "close_tab="@ + bool_text(c.0);
    let l2 = "ghostty_shortcut="@ + sc;
    let ls = config_lines(c);
    assert(ls == seq![l1, l2]);
    // Both lines survive rendering and splitting.
    assert(text::plain_line(l1)) by {
        if text::has_char(l1, '\n') {
            let k = choose|k: int| 0 <= k < l1.len() && l1[k] == '\n';
        }
    }
    assert(text::plain_line(l2)) by {
        text::lemma_has_char_concat("ghostty_shortcut="@, sc, '\n');
        if text::has_char("ghostty_shortcut="@, '\n') {
            let k = choose|k: int| 0 <= k < 17 && "ghostty_shortcut="@[k] == '\n';
        }
        assert(l2.last() == sc.last());
        if sc.last() == '\r' {
            assert(sc[sc.len() - 1] == '\r');
        }
    }
    assert forall|i: int| 0 <= i < ls.len() implies text::plain_line(#[trigger] ls[i]) by {
        if i == 0 {
            assert(ls[i] == l1);
        } else {
            assert(ls[i] == l2);
        }
    }
    text::lemma_lines_render(ls, Seq::<char>::empty());
    assert(serialized_config(c) + Seq::<char>::empty() =~= serialized_config(c));
    assert(text::lines(Seq::<char>::empty()) =~= Seq::<Seq<char>>::empty());
    assert(text::lines(serialized_config(c)) =~= ls);
    // The first line sets close_tab.
    text::lemma_first_index_at(l1, '=', 9);
    assert(l1.take(9) =~= "close_tab"@);
    assert(l1.skip(10) =~= bool_text(c.0));
    text::lemma_trim_fixed("close_tab"@);
    text::lemma_trim_fixed(bool_text(c.0));
    let c1 = (c.0, default_config().1);
    assert(config_line_step(default_config(), l1) == Ok::<(bool, Seq<char>), GtabError>(c1));
    // The second line sets the shortcut.
    text::lemma_first_index_at(l2, '=', 16);
    assert(l2.take(16) =~= "ghostty_shortcut"@);
    assert(l2.skip(17) =~= sc);
    text::lemma_trim_fixed("ghostty_shortcut"@);
    assert("ghostty_shortcut"@ != "close_tab"@);
    assert(config_line_step(c1, l2) == Ok::<(bool, Seq<char>), GtabError>(c));
    assert(ls.drop_last() =~= seq![l1]);
    assert(seq![l1].drop_last() =~= Seq::<Seq<char>>::empty());
    assert(config_from_lines(seq![l1].drop_last()) == Ok::<(bool, Seq<char>), GtabError>(default_config()));
    assert(config_from_lines(seq![l1]) == Ok::<(bool, Seq<char>), GtabError>(c1));
    assert(config_from_lines(ls) == Ok::<(bool, Seq<char>), GtabError>(c));
}

// ---------------------------------------------------------------------------
// Executable functions
// ---------------------------------------------------------------------------

/// Whether a shortcut turns the Ghostty-local shortcut off ("off", "none" or "disabled",
/// after trimming).
pub fn is_shortcut_disabled(shortcut: &str) -> (r: bool)
    ensures
        r == shortcut_disabled(shortcut@),
{
    let t = text::trim_chars(&text::to_chars(shortcut));
    text::chars_eq_str(&t, "off") || text::chars_eq_str(&t, "none") || text::chars_eq_str(
        &t,
        "disabled",
    )
}

/// Normalizes a shortcut: trimmed and lowercased; the "off" words become "off". Refused when
/// empty or when it holds '=', a newline or a carriage return.
pub fn normalize_ghostty_shortcut(shortcut: &str) -> (r: Result<String, GtabError>)
    ensures
        match r {
            Ok(n) => normalized_shortcut(shortcut@) == Ok::<Seq<char>, GtabError>(n@),
            Err(e) => normalized_shortcut(shortcut@) == Err::<Seq<char>, GtabError>(e),
        },
{
    let t = text::trim_chars(&text::to_chars(shortcut));
    let n = text::lowercase_chars(&t);
    if n.len() == 0 {
        return Err(GtabError::EmptyGhosttyShortcut);
    }
    let ns = text::from_chars(&n);
    if is_shortcut_disabled(ns.as_str()) {
        return Ok("off".to_owned());
    }
    if text::contains_char(&n, '=') || text::contains_char(&n, '\n') || text::contains_char(
        &n,
        '\r',
    ) {
        return Err(GtabError::InvalidGhosttyShortcut);
    }
    Ok(ns)
}

fn config_line_step_exec(c: Config, line: &Vec<char>) -> (r: Result<Config, GtabError>)
    ensures
        match r {
            Ok(n) => config_line_step(config_view(c), line@) == Ok::<(bool, Seq<char>), GtabError>(config_view(n)),
            Err(e) => config_line_step(config_view(c), line@) == Err::<(bool, Seq<char>), GtabError>(e),
        },
{
    let i = text::find_char_from(line, '=', 0);
    proof {
        text::lemma_first_index_at(line@, '=', i as int);
    }
    if i == line.len() {
        return Ok(c);
    }
    let key = text::trim_chars(&text::slice(line, 0, i));
    let value = text::trim_chars(&text::slice(line, i + 1, line.len()));
    assert(line@.subrange(0, i as int) =~= line@.take(i as int));
    assert(line@.subrange(i + 1, line@.len() as int) =~= line@.skip(i + 1));
    if text::chars_eq_str(&key, "close_tab") {
        let on = text::chars_eq_str(&value, "true") || text::chars_eq_str(&value, "on");
        Ok(Config { close_tab: on, ghostty_shortcut: c.ghostty_shortcut })
    } else if text::chars_eq_str(&key, "ghostty_shortcut") && value.len() > 0 {
        let vs = text::from_chars(&value);
        match normalize_ghostty_shortcut(vs.as_str()) {
            Ok(n) => Ok(Config { close_tab: c.close_tab, ghostty_shortcut: n }),
            Err(e) => Err(e),
        }
    } else {
        Ok(c)
    }
}

impl Config {
    /// The settings in a settings file; `None` when there is no file, which means the
    /// defaults. Unknown keys and lines without '=' are ignored; a bad shortcut is refused.
    pub fn load(raw: Option<&str>) -> (r: Result<Config, GtabError>)
        ensures
            match r {
                Ok(c) => config_from_file(match raw {
                    Some(s) => Some(s@),
                    None => None,
                }) == Ok::<(bool, Seq<char>), GtabError>(config_view(c)),
                Err(e) => config_from_file(match raw {
                    Some(s) => Some(s@),
                    None => None,
                }) == Err::<(bool, Seq<char>), GtabError>(e),
            },
    {
        let text_in = match raw {
            None => return Ok(Config::default()),
            Some(s) => s,
        };
        let ls = text::split_lines(&text::to_chars(text_in));
        let ghost all = text::lines(text_in@);
        let mut config = Config::default();
        assert(all.take(0) =~= Seq::<Seq<char>>::empty());
        for i in 0..ls.len()
            invariant
                text::views(ls@) == all,
                all == text::lines(text_in@),
                raw == Some(text_in),
                config_from_lines(all.take(i as int)) == Ok::<(bool, Seq<char>), GtabError>(config_view(config)),
        {
            assert(all.take(i + 1).drop_last() =~= all.take(i as int));
            assert(text::views(ls@)[i as int] == ls@[i as int]@);
            assert(all.take(i + 1).last() == ls@[i as int]@);
            let ghost before = config_view(config);
            match config_line_step_exec(config, &ls[i]) {
                Ok(c) => {
                    config = c;
                },
                Err(e) => {
                    proof {
                        assert(config_from_lines(all.take(i + 1)) == config_line_step(before, all.take(i + 1).last()));
                        lemma_config_error_sticks(all, i + 1);
                    }
                    return Err(e);
                },
            }
        }
        assert(all.take(ls.len() as int) =~= all);
        Ok(config)
    }

    /// The settings file's text: "close_tab=true|false" and "ghostty_shortcut=<shortcut>",
    /// each on its own line.
    pub fn serialize(&self) -> (r: String)
        ensures
            r@ == serialized_config(config_view(*self)),
    {
        let mut v = text::to_chars("close_tab=");
        text::extend_str(&mut v, if self.close_tab { "true" } else { "false" });
        v.push('\n');
        text::extend_str(&mut v, "ghostty_shortcut=");
        text::extend_str(&mut v, self.ghostty_shortcut.as_str());
        v.push('\n');
        proof {
            let ls = config_lines(config_view(*self));
            assert(ls.drop_first().drop_first() =~= Seq::<Seq<char>>::empty());
            assert(text::render_lines(ls.drop_first().drop_first()) =~= Seq::<char>::empty());
            assert(text::render_lines(ls.drop_first()) =~= ls[1] + seq!['\n']);
            assert(v@ =~= ls[0] + seq!['\n'] + (ls[1] + seq!['\n']));
        }
        text::from_chars(&v)
    }
}

impl Default for Config {
    /// `close_tab` off and the shortcut "cmd+g".
    fn default() -> (r: Config)
        ensures
            config_view(r) == default_config(),
    {
        Config { close_tab: false, ghostty_shortcut: "cmd+g".to_owned() }
    }
}

} // verus!
