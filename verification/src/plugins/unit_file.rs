//! The systemd unit of a plugin, pointed at the directory it runs in.
use crate::plugins::error::{bad, PluginError, Refusal};
use crate::text::{
    cat2, ends_with, is_space, join, joined, lines, lower, lower_char, lowercase, same,
    split_lines, starts_with, trim, trim_end, trimmed, views,
};
use crate::utf8::{read_utf8, utf8_text};
use vstd::prelude::*;
use vstd::utf8::encode_utf8;

verus! {

/// Whether a line opens a section.
pub open spec fn is_section(line: Seq<char>) -> bool {
    "["@.is_prefix_of(trim(line)) && "]"@.is_suffix_of(trim(line))
}

/// Whether a line opens the `[Service]` section, in letters of either case.
pub open spec fn is_service_section(line: Seq<char>) -> bool {
    is_section(line) && lower(trim(line)) == "[service]"@
}

/// Whether a line sets the working directory.
pub open spec fn sets_directory(line: Seq<char>) -> bool {
    "WorkingDirectory="@.is_prefix_of(trim(line))
}

/// How far a unit was rewritten.
pub struct UnitRewrite {
    pub output: Seq<Seq<char>>,
    pub saw_service: bool,
    pub in_service: bool,
    pub placed: bool,
}

/// The rewriting of a unit, one line on. `directive` is the line that sets the
/// working directory: it takes the place of the first such line of a
/// `[Service]` section, or ends the first `[Service]` section without one;
/// further such lines are dropped.
pub open spec fn rewrite_line(
    state: UnitRewrite,
    line: Seq<char>,
    directive: Seq<char>,
) -> UnitRewrite {
    if is_section(line) {
        let ends = state.in_service && !state.placed;
        UnitRewrite {
            output: (if ends {
                state.output.push(directive)
            } else {
                state.output
            }).push(line),
            saw_service: state.saw_service || is_service_section(line),
            in_service: is_service_section(line),
            placed: state.placed || ends,
        }
    } else if state.in_service && sets_directory(line) {
        UnitRewrite {
            output: if state.placed {
                state.output
            } else {
                state.output.push(directive)
            },
            placed: true,
            ..state
        }
    } else {
        UnitRewrite { output: state.output.push(line), ..state }
    }
}

/// The rewriting of a unit after its lines `ls`.
pub open spec fn rewrite_lines(ls: Seq<Seq<char>>, directive: Seq<char>) -> UnitRewrite
    decreases ls.len(),
{
    if ls.len() == 0 {
        UnitRewrite {
            output: Seq::empty(),
            saw_service: false,
            in_service: false,
            placed: false,
        }
    } else {
        rewrite_line(rewrite_lines(ls.drop_last(), directive), ls.last(), directive)
    }
}

/// The lines of a unit with the working directory set.
pub open spec fn rewritten(ls: Seq<Seq<char>>, directive: Seq<char>) -> Seq<Seq<char>> {
    let state = rewrite_lines(ls, directive);
    if state.in_service && !state.placed {
        state.output.push(directive)
    } else {
        state.output
    }
}

/// A text with a line end behind it.
pub open spec fn with_line_end(text: Seq<char>) -> Seq<char> {
    if "\n"@.is_suffix_of(text) {
        text
    } else {
        text.push('\n')
    }
}

/// The line that sets the working directory.
pub open spec fn directive_for(current_dir: Seq<char>) -> Seq<char> {
    "WorkingDirectory="@ + current_dir
}

/// A unit with the working directory set, as bytes.
pub open spec fn unit_of(service: Seq<u8>, current_dir: Seq<char>) -> Result<Seq<u8>, Refusal> {
    match utf8_text(service) {
        Err(err) => Err(bad("plugin service file is not utf-8: "@ + err)),
        Ok(text) => {
            let directive = directive_for(current_dir);
            if !rewrite_lines(lines(text), directive).saw_service {
                Err(bad("plugin service file must contain a [Service] section"@))
            } else {
                Ok(encode_utf8(with_line_end(join(rewritten(lines(text), directive), "\n"@))))
            }
        },
    }
}

/// What an outcome with bytes stands for.
pub open spec fn bytes_outcome(out: Result<Vec<u8>, PluginError>) -> Result<Seq<u8>, Refusal> {
    match out {
        Ok(bytes) => Ok(bytes@),
        Err(err) => Err(err@),
    }
}

/// The unit of a plugin with its working directory set to the directory that
/// the plugin runs in.
pub fn normalize_service_working_directory(
    service_bytes: &[u8],
    current_dir: &str,
) -> (out: Result<Vec<u8>, PluginError>)
    ensures
        bytes_outcome(out) == unit_of(service_bytes@, current_dir@),
{
    let text = match read_utf8(service_bytes) {
        Ok(text) => text,
        Err(err) => {
            return Err(
                PluginError::bad_request(
                    cat2("plugin service file is not utf-8: ", err.as_str()),
                ),
            );
        },
    };
    let directive = cat2("WorkingDirectory=", current_dir);
    let ls = split_lines(text.as_str());
    let mut output: Vec<String> = Vec::new();
    let mut saw_service: bool = false;
    let mut in_service: bool = false;
    let mut placed: bool = false;
    let mut i: usize = 0;
    proof {
        assert(views(ls@).take(0) =~= Seq::<Seq<char>>::empty());
        assert(views(output@) =~= Seq::<Seq<char>>::empty());
        reveal_strlit("[Service]");
        reveal_strlit("[service]");
        assert(lower("[Service]"@) =~= "[service]"@);
    }
    while i < ls.len()
        invariant
            i <= ls@.len(),
            views(ls@) == lines(text@),
            directive@ == directive_for(current_dir@),
            (UnitRewrite { output: views(output@), saw_service, in_service, placed })
                == rewrite_lines(views(ls@).take(i as int), directive@),
        decreases ls@.len() - i,
    {
        let ghost before = views(output@);
        let ghost line = ls@[i as int]@;
        proof {
            let t = views(ls@).take(i + 1);
            assert(t.drop_last() =~= views(ls@).take(i as int));
            assert(t.last() == line);
        }
        let bare = trimmed(ls[i].as_str());
        if starts_with(bare.as_str(), "[") && ends_with(bare.as_str(), "]") {
            if in_service && !placed {
                output.push(directive.clone());
                placed = true;
                assert(views(output@) =~= before.push(directive@));
            }
            let ghost mid = views(output@);
            in_service = same(lowercase(bare.as_str()).as_str(), "[service]");
            if in_service {
                saw_service = true;
            }
            output.push(ls[i].clone());
            assert(views(output@) =~= mid.push(line));
        } else if in_service && starts_with(bare.as_str(), "WorkingDirectory=") {
            if !placed {
                output.push(directive.clone());
                placed = true;
                assert(views(output@) =~= before.push(directive@));
            }
        } else {
            output.push(ls[i].clone());
            assert(views(output@) =~= before.push(line));
        }
        i += 1;
    }
    assert(views(ls@).take(i as int) =~= views(ls@));
    if !saw_service {
        return Err(
            PluginError::bad_request(
                "plugin service file must contain a [Service] section".to_owned(),
            ),
        );
    }
    if in_service && !placed {
        let ghost before = views(output@);
        output.push(directive.clone());
        assert(views(output@) =~= before.push(directive@));
    }
    let mut normalized = joined(&output, "\n");
    if !ends_with(normalized.as_str(), "\n") {
        normalized.push('\n');
    }
    Ok(normalized.as_str().as_bytes_vec())
}

// ── Laws ─────────────────────────────────────────────────────────────────────

/// Whether the lines before the end of `ls` leave it in a `[Service]` section.
pub open spec fn ends_in_service(ls: Seq<Seq<char>>) -> bool
    decreases ls.len(),
{
    if ls.len() == 0 {
        false
    } else if is_section(ls.last()) {
        is_service_section(ls.last())
    } else {
        ends_in_service(ls.drop_last())
    }
}

/// The lines of a unit but those that set the working directory of a service.
pub open spec fn without_directory(ls: Seq<Seq<char>>) -> Seq<Seq<char>>
    decreases ls.len(),
{
    if ls.len() == 0 {
        Seq::empty()
    } else {
        let before = without_directory(ls.drop_last());
        if !is_section(ls.last()) && ends_in_service(ls.drop_last()) && sets_directory(ls.last()) {
            before
        } else {
            before.push(ls.last())
        }
    }
}

/// Whether `all` is `rest` with one `line` put in.
pub open spec fn has_one_more(
    all: Seq<Seq<char>>,
    rest: Seq<Seq<char>>,
    line: Seq<char>,
) -> bool {
    exists|k: int| 0 <= k <= rest.len() && all == #[trigger] rest.insert(k, line)
}

proof fn lemma_rewrite(ls: Seq<Seq<char>>, directive: Seq<char>)
    ensures
        rewrite_lines(ls, directive).in_service == ends_in_service(ls),
        rewrite_lines(ls, directive).in_service ==> rewrite_lines(ls, directive).saw_service,
        rewrite_lines(ls, directive).placed ==> has_one_more(
            rewrite_lines(ls, directive).output,
            without_directory(ls),
            directive,
        ),
        !rewrite_lines(ls, directive).placed ==> rewrite_lines(ls, directive).output
            == without_directory(ls),
        rewrite_lines(ls, directive).saw_service && !rewrite_lines(ls, directive).in_service
            ==> rewrite_lines(ls, directive).placed,
    decreases ls.len(),
{
    if ls.len() > 0 {
        let rest = ls.drop_last();
        let line = ls.last();
        let state = rewrite_lines(rest, directive);
        let next = rewrite_lines(ls, directive);
        let kept = without_directory(rest);
        lemma_rewrite(rest, directive);
        if state.placed {
            let k = choose|k: int|
                0 <= k <= kept.len() && state.output == #[trigger] kept.insert(k, directive);
            if without_directory(ls) == kept.push(line) && next.output == state.output.push(line) {
                assert(kept.push(line).insert(k, directive) =~= kept.insert(k, directive).push(
                    line,
                ));
                assert(has_one_more(next.output, without_directory(ls), directive));
            } else {
                assert(has_one_more(next.output, kept, directive));
            }
        } else if next.placed {
            if is_section(line) {
                assert(kept.push(line).insert(kept.len() as int, directive) =~= kept.push(
                    directive,
                ).push(line));
                assert(has_one_more(next.output, without_directory(ls), directive));
            } else {
                assert(kept.insert(kept.len() as int, directive) =~= kept.push(directive));
                assert(has_one_more(next.output, without_directory(ls), directive));
            }
        }
    }
}

/// A rewritten unit sets the working directory of the service once: it is the
/// unit without the lines that did so, with the new one put in.
pub proof fn one_working_directory(ls: Seq<Seq<char>>, directive: Seq<char>)
    requires
        rewrite_lines(ls, directive).saw_service,
    ensures
        has_one_more(rewritten(ls, directive), without_directory(ls), directive),
{
    lemma_rewrite(ls, directive);
    let state = rewrite_lines(ls, directive);
    let kept = without_directory(ls);
    if state.in_service && !state.placed {
        assert(kept.insert(kept.len() as int, directive) =~= kept.push(directive));
        assert(has_one_more(rewritten(ls, directive), kept, directive));
    }
}

/// Whether a line names the section of the service, whatever the case of its
/// letters and the spaces round it.
pub open spec fn names_service(line: Seq<char>) -> bool {
    lower(trim(line)) == "[service]"@
}

/// Whether line `k` stands in the section of the service: the last line before it
/// that opens a section names the service.
pub open spec fn lies_in_service(ls: Seq<Seq<char>>, k: int) -> bool {
    exists|j: int|
        0 <= j < k && names_service(#[trigger] ls[j]) && forall|i: int|
            j < i < k ==> !is_section(#[trigger] ls[i])
}

/// Whether one of the lines is `directive` and stands in the section of the service.
pub open spec fn is_set(ls: Seq<Seq<char>>, directive: Seq<char>) -> bool {
    exists|k: int| 0 <= k < ls.len() && #[trigger] ls[k] == directive && lies_in_service(ls, k)
}

/// A line that names the section of the service opens a section.
pub proof fn service_lines_open_a_section(line: Seq<char>)
    ensures
        names_service(line) <==> is_service_section(line),
{
    if names_service(line) {
        reveal_strlit("[service]");
        reveal_strlit("[");
        reveal_strlit("]");
        let t = trim(line);
        assert(lower(t).len() == t.len());
        assert(lower(t).len() == 9);
        assert(lower(t)[0] == lower_char(t[0]));
        assert(lower(t)[8] == lower_char(t[8]));
        assert(t[0] == '[');
        assert(t[8] == ']');
        assert("["@ =~= t.take(1));
        assert("]"@ =~= t.skip(8));
    }
}

proof fn lemma_stays_set(ls: Seq<Seq<char>>, line: Seq<char>, directive: Seq<char>)
    requires
        is_set(ls, directive),
    ensures
        is_set(ls.push(line), directive),
{
    let k = choose|k: int|
        0 <= k < ls.len() && #[trigger] ls[k] == directive && lies_in_service(ls, k);
    lemma_stays_in_service(ls, line, k);
    assert(ls.push(line)[k] == directive);
}

proof fn lemma_stays_in_service(ls: Seq<Seq<char>>, line: Seq<char>, k: int)
    requires
        0 <= k <= ls.len(),
        lies_in_service(ls, k),
    ensures
        lies_in_service(ls.push(line), k),
        k == ls.len() && !is_section(line) ==> lies_in_service(ls.push(line), k + 1),
{
    let more = ls.push(line);
    let j = choose|j: int|
        0 <= j < k && names_service(#[trigger] ls[j]) && forall|i: int|
            j < i < k ==> !is_section(#[trigger] ls[i]);
    assert(names_service(more[j]));
    assert forall|i: int| j < i < k implies !is_section(#[trigger] more[i]) by {
        assert(more[i] == ls[i]);
    }
}

proof fn lemma_set_on_the_way(ls: Seq<Seq<char>>, directive: Seq<char>)
    requires
        !is_section(directive),
    ensures
        ({
            let state = rewrite_lines(ls, directive);
            &&& state.placed ==> is_set(state.output, directive)
            &&& state.in_service ==> lies_in_service(state.output, state.output.len() as int)
            &&& state.saw_service <==> exists|i: int|
                0 <= i < ls.len() && names_service(#[trigger] ls[i])
        }),
    decreases ls.len(),
{
    if ls.len() > 0 {
        let rest = ls.drop_last();
        let line = ls.last();
        let state = rewrite_lines(rest, directive);
        let next = rewrite_lines(ls, directive);
        lemma_set_on_the_way(rest, directive);
        service_lines_open_a_section(line);
        if state.saw_service {
            let i = choose|i: int| 0 <= i < rest.len() && names_service(#[trigger] rest[i]);
            assert(ls[i] == rest[i]);
        }
        assert(ls[ls.len() - 1] == line);
        assert(forall|i: int| 0 <= i < rest.len() ==> ls[i] == rest[i]);
        let out = state.output;
        if state.placed {
            lemma_stays_set(out, line, directive);
        }
        if state.in_service && !state.placed {
            assert(out.push(directive)[out.len() as int] == directive);
            lemma_stays_in_service(out, directive, out.len() as int);
            assert(is_set(out.push(directive), directive));
            lemma_stays_set(out.push(directive), line, directive);
        }
        if next.in_service {
            if is_section(line) {
                let n = next.output.len();
                assert(next.output[n - 1] == line);
                assert(lies_in_service(next.output, n as int));
            } else {
                lemma_stays_in_service(out, line, out.len() as int);
            }
        }
    }
}

/// The working directory of a rewritten unit is set in the section of the service,
/// and a unit has such a section if and only if one of its lines names it.
pub proof fn the_service_gets_its_directory(ls: Seq<Seq<char>>, directive: Seq<char>)
    requires
        !is_section(directive),
    ensures
        rewrite_lines(ls, directive).saw_service <==> exists|i: int|
            0 <= i < ls.len() && names_service(#[trigger] ls[i]),
        rewrite_lines(ls, directive).saw_service ==> is_set(rewritten(ls, directive), directive),
{
    lemma_set_on_the_way(ls, directive);
    lemma_rewrite(ls, directive);
    let state = rewrite_lines(ls, directive);
    if state.in_service && !state.placed {
        let out = state.output;
        assert(out.push(directive)[out.len() as int] == directive);
        lemma_stays_in_service(out, directive, out.len() as int);
        assert(is_set(out.push(directive), directive));
    }
}

/// A unit is rewritten if and only if it is UTF-8 and one of its lines names the
/// section of the service; what comes out ends with a line end.
pub proof fn units_with_a_service_are_rewritten(service: Seq<u8>, current_dir: Seq<char>)
    ensures
        unit_of(service, current_dir) is Ok <==> (utf8_text(service) matches Ok(text) && exists|
            i: int,
        |
            0 <= i < lines(text).len() && names_service(#[trigger] lines(text)[i])),
        unit_of(service, current_dir) matches Ok(bytes) ==> exists|text: Seq<char>|
            bytes == #[trigger] encode_utf8(text) && text.len() > 0 && text.last() == '\n',
{
    let directive = directive_for(current_dir);
    assert(!is_section(directive)) by {
        reveal_strlit("WorkingDirectory=");
        reveal_strlit("[");
        assert(directive[0] == 'W');
        lemma_trim_keeps_start(directive);
        if "["@.is_prefix_of(trim(directive)) {
            assert("["@ =~= trim(directive).take(1));
            assert(trim(directive)[0] == "["@[0]);
        }
    }
    if let Ok(text) = utf8_text(service) {
        the_service_gets_its_directory(lines(text), directive);
        let whole = join(rewritten(lines(text), directive), "\n"@);
        let ended = with_line_end(whole);
        reveal_strlit("\n");
        if "\n"@.is_suffix_of(whole) {
            assert("\n"@ =~= whole.skip(whole.len() - 1));
            assert(whole.skip(whole.len() - 1)[0] == '\n');
        }
        assert(ended.last() == '\n');
        if unit_of(service, current_dir) is Ok {
            assert(unit_of(service, current_dir) == Ok::<Seq<u8>, Refusal>(encode_utf8(ended)));
        }
    }
}

proof fn lemma_trim_keeps_start(s: Seq<char>)
    requires
        s.len() > 0,
        !is_space(s[0]),
    ensures
        trim(s).len() > 0,
        trim(s)[0] == s[0],
{
    lemma_trim_end_keeps_start(s);
}

proof fn lemma_trim_end_keeps_start(s: Seq<char>)
    requires
        s.len() > 0,
        !is_space(s[0]),
    ensures
        trim_end(s).len() > 0,
        trim_end(s)[0] == s[0],
    decreases s.len(),
{
    if is_space(s.last()) {
        lemma_trim_end_keeps_start(s.drop_last());
    }
}

} // verus!
