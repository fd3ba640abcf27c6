//! The symbolic links that make the binaries of plugins reachable.
use crate::paths::{components, same_path};
use crate::plugins::error::{bad, failed, PluginError, Refusal};
use crate::text::{
    cat2, cat3, cat4, first_index, lemma_first_index, lines, opt_pair_view, opt_str_view, opt_view,
    split_lines, views,
};
use vstd::prelude::*;

verus! {

/// What stands where a link is wanted.
#[derive(Debug)]
pub enum LinkState {
    /// Nothing.
    Missing,
    /// It could not be told, and why.
    Unknown(String),
    /// Something that is no link.
    Other,
    /// A link that could not be read, and why.
    Unreadable(String),
    /// A link, and the path that it points to.
    Link(String),
}

/// What the state of a link holds.
pub enum LinkStateView {
    Missing,
    Unknown(Seq<char>),
    Other,
    Unreadable(Seq<char>),
    Link(Seq<char>),
}

impl View for LinkState {
    type V = LinkStateView;

    open spec fn view(&self) -> LinkStateView {
        match *self {
            LinkState::Missing => LinkStateView::Missing,
            LinkState::Unknown(err) => LinkStateView::Unknown(err@),
            LinkState::Other => LinkStateView::Other,
            LinkState::Unreadable(err) => LinkStateView::Unreadable(err@),
            LinkState::Link(target) => LinkStateView::Link(target@),
        }
    }
}

/// What an outcome with a yes or no stands for.
pub open spec fn flag_outcome(out: Result<bool, PluginError>) -> Result<bool, Refusal> {
    match out {
        Ok(flag) => Ok(flag),
        Err(err) => Err(err@),
    }
}

// ── Removing ─────────────────────────────────────────────────────────────────

/// Whether there is a link to remove: only one that points to `expected`.
pub open spec fn removal_of(
    link: Seq<char>,
    expected: Seq<char>,
    state: LinkStateView,
) -> Result<bool, Refusal> {
    match state {
        LinkStateView::Missing => Ok(false),
        LinkStateView::Unknown(err) => Err(
            failed("inspect plugin symlink "@ + link + ": "@ + err),
        ),
        LinkStateView::Other => Err(
            bad("plugin bin_path "@ + link + " conflicts with an existing non-symlink entry"@),
        ),
        LinkStateView::Unreadable(err) => Err(failed("read plugin symlink: "@ + err)),
        LinkStateView::Link(target) => if components(target) == components(expected) {
            Ok(true)
        } else {
            Err(bad("plugin bin_path "@ + link + " is owned by another target"@))
        },
    }
}

/// Whether there is a link to remove. A link that points elsewhere, or anything
/// else that stands there, is left alone with an error.
pub fn remove_managed_symlink(link_path: &str, expected_target: &str, state: &LinkState) -> (out:
    Result<bool, PluginError>)
    ensures
        flag_outcome(out) == removal_of(link_path@, expected_target@, state@),
{
    match state {
        LinkState::Missing => Ok(false),
        LinkState::Unknown(err) => Err(
            PluginError::internal(
                cat4("inspect plugin symlink ", link_path, ": ", err.as_str()),
            ),
        ),
        LinkState::Other => Err(
            PluginError::bad_request(
                cat3(
                    "plugin bin_path ",
                    link_path,
                    " conflicts with an existing non-symlink entry",
                ),
            ),
        ),
        LinkState::Unreadable(err) => Err(
            PluginError::internal(cat2("read plugin symlink: ", err.as_str())),
        ),
        LinkState::Link(target) => {
            if same_path(target.as_str(), expected_target) {
                Ok(true)
            } else {
                Err(
                    PluginError::bad_request(
                        cat3("plugin bin_path ", link_path, " is owned by another target"),
                    ),
                )
            }
        },
    }
}

// ── Creating ─────────────────────────────────────────────────────────────────

/// Whether a link has to go before one to `target` is made in its place: only
/// one that points to `target` already.
pub open spec fn replacement_of(
    link: Seq<char>,
    target: Seq<char>,
    state: LinkStateView,
) -> Result<bool, Refusal> {
    match state {
        LinkStateView::Missing => Ok(false),
        LinkStateView::Unknown(err) => Err(
            failed("inspect plugin bin_path "@ + link + ": "@ + err),
        ),
        LinkStateView::Other => Err(
            bad("plugin bin_path "@ + link + " conflicts with an existing file"@),
        ),
        LinkStateView::Unreadable(err) => Err(failed("read plugin symlink: "@ + err)),
        LinkStateView::Link(current) => if components(current) == components(target) {
            Ok(true)
        } else {
            Err(bad("plugin bin_path "@ + link + " conflicts with an existing symlink"@))
        },
    }
}

/// Whether a link has to go before one to `target` is made in its place.
/// Anything that is not a link to `target` is left alone with an error.
pub fn install_bin_path(link_path: &str, target: &str, state: &LinkState) -> (out: Result<
    bool,
    PluginError,
>)
    ensures
        flag_outcome(out) == replacement_of(link_path@, target@, state@),
{
    match state {
        LinkState::Missing => Ok(false),
        LinkState::Unknown(err) => Err(
            PluginError::internal(
                cat4("inspect plugin bin_path ", link_path, ": ", err.as_str()),
            ),
        ),
        LinkState::Other => Err(
            PluginError::bad_request(
                cat3("plugin bin_path ", link_path, " conflicts with an existing file"),
            ),
        ),
        LinkState::Unreadable(err) => Err(
            PluginError::internal(cat2("read plugin symlink: ", err.as_str())),
        ),
        LinkState::Link(current) => {
            if same_path(current.as_str(), target) {
                Ok(true)
            } else {
                Err(
                    PluginError::bad_request(
                        cat3("plugin bin_path ", link_path, " conflicts with an existing symlink"),
                    ),
                )
            }
        },
    }
}

// ── Remembering ──────────────────────────────────────────────────────────────

/// What is written down to bring a link back: its path and its target, a line
/// each.
pub open spec fn link_info(link: Seq<char>, target: Seq<char>) -> Seq<char> {
    link + "\n"@ + target + "\n"@
}

/// What is to be written down before an update of a plugin that has the link
/// `link` to `target`: nothing where there is no such link.
pub open spec fn rollback_info(
    link: Option<Seq<char>>,
    target: Option<Seq<char>>,
    state: LinkStateView,
) -> Result<Option<Seq<char>>, Refusal> {
    match (link, target) {
        (Some(link), Some(target)) => match state {
            LinkStateView::Missing | LinkStateView::Unknown(_) => Ok(None),
            LinkStateView::Other => Err(
                bad("plugin bin_path "@ + link + " conflicts with an existing non-symlink entry"@),
            ),
            LinkStateView::Unreadable(err) => Err(failed("read plugin symlink: "@ + err)),
            LinkStateView::Link(current) => if components(current) == components(target) {
                Ok(Some(link_info(link, current)))
            } else {
                Err(bad("plugin bin_path "@ + link + " is already used by another target"@))
            },
        },
        _ => Ok(None),
    }
}

/// What an outcome with an optional text stands for.
pub open spec fn info_outcome(out: Result<Option<String>, PluginError>) -> Result<
    Option<Seq<char>>,
    Refusal,
> {
    match out {
        Ok(info) => Ok(opt_view(info)),
        Err(err) => Err(err@),
    }
}

/// What is to be written down before an update of a plugin, to bring its link
/// back if the update fails.
pub fn prepare_bin_path_rollback(
    bin_path: Option<&str>,
    target: Option<&str>,
    state: &LinkState,
) -> (out: Result<Option<String>, PluginError>)
    ensures
        info_outcome(out) == rollback_info(opt_str_view(bin_path), opt_str_view(target), state@),
{
    let link = match bin_path {
        Some(link) => link,
        None => {
            return Ok(None);
        },
    };
    let target = match target {
        Some(target) => target,
        None => {
            return Ok(None);
        },
    };
    match state {
        LinkState::Missing => Ok(None),
        LinkState::Unknown(_) => Ok(None),
        LinkState::Other => Err(
            PluginError::bad_request(
                cat3(
                    "plugin bin_path ",
                    link,
                    " conflicts with an existing non-symlink entry",
                ),
            ),
        ),
        LinkState::Unreadable(err) => Err(
            PluginError::internal(cat2("read plugin symlink: ", err.as_str())),
        ),
        LinkState::Link(current) => {
            if same_path(current.as_str(), target) {
                Ok(Some(cat4(link, "\n", current.as_str(), "\n")))
            } else {
                Err(
                    PluginError::bad_request(
                        cat3("plugin bin_path ", link, " is already used by another target"),
                    ),
                )
            }
        },
    }
}

/// The link that was written down: its path and its target.
pub open spec fn link_of_info(data: Seq<char>) -> Option<(Seq<char>, Seq<char>)> {
    if lines(data).len() >= 2 {
        Some((lines(data)[0], lines(data)[1]))
    } else {
        None
    }
}

/// The link that was written down: its path and its target.
pub fn restore_bin_path(data: &str) -> (out: Option<(String, String)>)
    ensures
        opt_pair_view(out) == link_of_info(data@),
{
    let ls = split_lines(data);
    assert(views(ls@).len() == ls@.len());
    if ls.len() < 2 {
        return None;
    }
    assert(lines(data@)[0] == ls@[0]@);
    assert(lines(data@)[1] == ls@[1]@);
    Some((ls[0].clone(), ls[1].clone()))
}

// ── Laws ─────────────────────────────────────────────────────────────────────

/// A link is removed or replaced only where it points to the plugin's own
/// binary.
pub proof fn only_own_links_are_touched(
    link: Seq<char>,
    target: Seq<char>,
    state: LinkStateView,
)
    ensures
        removal_of(link, target, state) == Ok::<bool, Refusal>(true) <==> (
        state matches LinkStateView::Link(current) && components(current) == components(target)),
        replacement_of(link, target, state) == Ok::<bool, Refusal>(true) <==> (
        state matches LinkStateView::Link(current) && components(current) == components(target)),
        removal_of(link, target, state) == Ok::<bool, Refusal>(false) <==> state
            == LinkStateView::Missing,
        replacement_of(link, target, state) == Ok::<bool, Refusal>(false) <==> state
            == LinkStateView::Missing,
{
}

/// A link that was made to `target` can be removed, made again and written down
/// for that target.
pub proof fn made_links_are_managed(link: Seq<char>, target: Seq<char>)
    ensures
        removal_of(link, target, LinkStateView::Link(target)) == Ok::<bool, Refusal>(true),
        replacement_of(link, target, LinkStateView::Link(target)) == Ok::<bool, Refusal>(true),
        rollback_info(Some(link), Some(target), LinkStateView::Link(target)) == Ok::<
            Option<Seq<char>>,
            Refusal,
        >(Some(link_info(link, target))),
{
}

/// A text that is a line of its own: it has no line feed and does not end in a
/// carriage return.
pub open spec fn is_line(text: Seq<char>) -> bool {
    !text.contains('\n') && !(text.len() > 0 && text.last() == '\r')
}

/// What was written down of a link reads as that link.
pub proof fn links_come_back(link: Seq<char>, target: Seq<char>)
    requires
        is_line(link),
        is_line(target),
    ensures
        link_of_info(link_info(link, target)) == Some((link, target)),
{
    reveal_strlit("\n");
    let data = link_info(link, target);
    let rest = target + "\n"@;
    lemma_line(link, rest);
    lemma_line(target, Seq::empty());
    assert(rest =~= target + seq!['\n'] + Seq::<char>::empty());
    assert(data =~= link + seq!['\n'] + rest);
    assert(lines(data) =~= seq![link] + lines(rest));
    assert(lines(rest) =~= seq![target] + lines(Seq::<char>::empty()));
}

proof fn lemma_line(line: Seq<char>, rest: Seq<char>)
    requires
        is_line(line),
    ensures
        lines(line + seq!['\n'] + rest) == seq![line] + lines(rest),
{
    let s = line + seq!['\n'] + rest;
    lemma_first_index(s, '\n');
    let n = first_index(s, '\n');
    assert(s[line.len() as int] == '\n');
    if n < line.len() {
        assert(line[n] == '\n');
        assert(line.contains('\n'));
    }
    assert(n == line.len());
    assert(s.take(n) =~= line);
    assert(s.skip(n + 1) =~= rest);
}

} // verus!
