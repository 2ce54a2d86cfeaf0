//! Reading text: the command file, and what `tmux` prints.
use vstd::prelude::*;
use vstd::utf8::{decode_utf8, valid_utf8};

use crate::text::{
    chars_eq, chars_of, is_ws, lemma_split_nonempty, lemma_trim_drop_trailing_ws, lines, lines_chars,
    opt_string_view, split, string_of, strip_cr, trim, trim_chars,
};

verus! {

/// What `String::from_utf8_lossy` makes of `bytes`.
pub uninterp spec fn lossy_utf8(bytes: Seq<u8>) -> Seq<char>;

/// Calls `String::from_utf8_lossy`. Its documentation states that valid UTF-8
/// is decoded unchanged; invalid sequences become U+FFFD, which this contract
/// leaves under the name `lossy_utf8`.
#[verifier::external_body]
pub(crate) fn utf8_lossy(bytes: &[u8]) -> (s: String)
    ensures
        s@ == lossy_utf8(bytes@),
        valid_utf8(bytes@) ==> s@ == decode_utf8(bytes@),
{
    String::from_utf8_lossy(bytes).into_owned()
}

/// A line of input is a job unless, trimmed, it is empty or starts with `#`.
pub open spec fn is_command(t: Seq<char>) -> bool {
    t.len() > 0 && t[0] != '#'
}

/// The trimmed lines of `ls` that `keep` (by `comments_too`) accepts, in order:
/// with `comments_too` every non-empty line, else every command line.
pub open spec fn kept_lines(ls: Seq<Seq<char>>, comments_too: bool) -> Seq<Seq<char>>
    decreases ls.len(),
{
    if ls.len() == 0 {
        Seq::<Seq<char>>::empty()
    } else {
        let r = kept_lines(ls.drop_last(), comments_too);
        let t = trim(ls.last());
        if t.len() > 0 && (comments_too || t[0] != '#') {
            r.push(t)
        } else {
            r
        }
    }
}

/// The jobs of an input text: its lines, trimmed, without empty lines and
/// lines starting with `#`.
pub open spec fn commands_spec(content: Seq<char>) -> Seq<Seq<char>> {
    kept_lines(lines(content), false)
}

proof fn lemma_kept_ignores_cr(ls: Seq<Seq<char>>, comments_too: bool)
    ensures
        kept_lines(ls.map_values(|l: Seq<char>| strip_cr(l)), comments_too) == kept_lines(
            ls,
            comments_too,
        ),
    decreases ls.len(),
{
    if ls.len() > 0 {
        let m = ls.map_values(|l: Seq<char>| strip_cr(l));
        assert(m.drop_last() =~= ls.drop_last().map_values(|l: Seq<char>| strip_cr(l)));
        lemma_kept_ignores_cr(ls.drop_last(), comments_too);
        let x = ls.last();
        assert(m.last() == strip_cr(x));
        if x.len() > 0 && x.last() == '\r' {
            assert(is_ws(x.last()));
            lemma_trim_drop_trailing_ws(x);
        }
    }
}

/// The jobs of a text are its pieces between newlines, in order, each trimmed,
/// the empty ones and those starting with `#` left out; the last piece counts
/// whether or not a newline ends the text, and a newline at the end of the
/// text adds no job.
pub proof fn lemma_commands_are_lines(content: Seq<char>)
    ensures
        commands_spec(content) == kept_lines(split(content, '\n'), false),
        commands_spec(content + seq!['\n']) == commands_spec(content),
{
    let p = split(content, '\n');
    lemma_split_nonempty(content, '\n');
    let body = p.drop_last();
    lemma_kept_ignores_cr(body, false);
    assert(trim(Seq::<char>::empty()) =~= Seq::<char>::empty());
    let m = body.map_values(|l: Seq<char>| strip_cr(l));
    if p.last().len() == 0 {
        assert(p.last() =~= Seq::<char>::empty());
        assert(lines(content) == m);
        assert(kept_lines(p, false) == kept_lines(body, false));
    } else {
        assert(lines(content) == m.push(p.last()));
        assert(m.push(p.last()).drop_last() =~= m);
        assert(kept_lines(lines(content), false) == kept_lines(p, false));
    }
    let c2 = content + seq!['\n'];
    assert(c2.drop_last() =~= content);
    assert(c2.last() == '\n');
    let p2 = split(c2, '\n');
    assert(p2 == p.push(Seq::<char>::empty()));
    assert(p2.drop_last() =~= p);
    assert(p2.last() =~= Seq::<char>::empty());
    lemma_kept_ignores_cr(p, false);
}

pub open spec fn strings_view(v: Seq<String>) -> Seq<Seq<char>> {
    v.map_values(|s: String| s@)
}

fn keep_trimmed_lines(text: &Vec<char>, comments_too: bool) -> (out: Vec<String>)
    ensures
        strings_view(out@) == kept_lines(lines(text@), comments_too),
{
    let ls = lines_chars(text);
    let ghost lv = lines(text@);
    let n = ls.len();
    let mut out: Vec<String> = Vec::new();
    let mut i: usize = 0;
    while i < n
        invariant
            i <= n == ls@.len() == lv.len(),
            lv == lines(text@),
            forall|k: int| 0 <= k < n ==> (#[trigger] ls@[k])@ == lv[k],
            strings_view(out@) == kept_lines(lv.take(i as int), comments_too),
        decreases n - i,
    {
        proof {
            assert(lv.take(i + 1).drop_last() =~= lv.take(i as int));
            assert(lv.take(i + 1).last() == lv[i as int]);
        }
        let t = trim_chars(&ls[i]);
        assert(ls@[i as int]@ == lv[i as int]);
        if t.len() > 0 && (comments_too || t[0] != '#') {
            let ghost before = out@;
            out.push(string_of(&t));
            assert(strings_view(out@) =~= strings_view(before).push(t@));
        }
        i = i + 1;
    }
    assert(lv.take(n as int) =~= lv);
    out
}

/// The jobs of an input text, one per line: each line trimmed; empty lines
/// and lines starting with `#` skipped.
pub fn parse_commands(content: &str) -> (r: Vec<String>)
    ensures
        strings_view(r@) == commands_spec(content@),
{
    let text = chars_of(content);
    keep_trimmed_lines(&text, false)
}

/// The non-empty trimmed lines of what `tmux list-windows` printed: the
/// names of the session's windows.
pub fn parse_window_names(stdout: &[u8]) -> (r: Vec<String>)
    ensures
        strings_view(r@) == kept_lines(lines(lossy_utf8(stdout@)), true),
        valid_utf8(stdout@) ==> lossy_utf8(stdout@) == decode_utf8(stdout@),
{
    let s = utf8_lossy(stdout);
    let text = chars_of(s.as_str());
    keep_trimmed_lines(&text, true)
}

/// Whether `tmux list-panes` reports a dead pane: its first line, trimmed, is `1`.
pub open spec fn pane_dead_spec(out: Seq<char>) -> bool {
    lines(out).len() > 0 && trim(lines(out)[0]) == "1"@
}

/// Whether what `tmux list-panes` printed reports a dead pane.
pub fn parse_pane_dead(stdout: &[u8]) -> (r: bool)
    ensures
        r == pane_dead_spec(lossy_utf8(stdout@)),
        valid_utf8(stdout@) ==> lossy_utf8(stdout@) == decode_utf8(stdout@),
{
    let s = utf8_lossy(stdout);
    let text = chars_of(s.as_str());
    let ls = lines_chars(&text);
    if ls.len() == 0 {
        return false;
    }
    let t = trim_chars(&ls[0]);
    chars_eq(&t, &chars_of("1"))
}

/// What `tmux display-message` printed, trimmed; `None` where nothing is left.
pub open spec fn tmux_name_spec(out: Seq<char>) -> Option<Seq<char>> {
    if trim(out).len() == 0 {
        None
    } else {
        Some(trim(out))
    }
}

/// The name that `tmux display-message` printed, if any.
pub fn parse_tmux_name(stdout: &[u8]) -> (r: Option<String>)
    ensures
        opt_string_view(r) == tmux_name_spec(lossy_utf8(stdout@)),
        valid_utf8(stdout@) ==> lossy_utf8(stdout@) == decode_utf8(stdout@),
{
    let s = utf8_lossy(stdout);
    let text = chars_of(s.as_str());
    let t = trim_chars(&text);
    if t.len() == 0 {
        None
    } else {
        Some(string_of(&t))
    }
}

} // verus!
