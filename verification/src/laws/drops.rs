//! What becomes of a paste, in terms of the text that was pasted.
use vstd::prelude::*;
use vstd::utf8::{encode_utf8, encode_utf8_decode_utf8, encode_utf8_valid_utf8, valid_utf8};
use crate::laws::streams::{
    closing, law_frame_is_what_a_terminal_sends, law_whole_paste_is_reported_as_a_paste, opening,
    stands_in,
};
use crate::paste::EventModel;
use crate::proxy::{
    forwarding_step, is_action_for, is_line_end, is_windows_absolute, pasted_path, target_of,
    unquoted, without_line_end, ForwardAction, LocalPathPaste, PasteTarget, SignalModel,
    TargetModel,
};

verus! {

/// A path with a drive letter, or one that names a server.
pub open spec fn is_windows_path(path: Seq<char>) -> bool {
    ||| {
        &&& path.len() >= 3
        &&& ('a' <= path[0] <= 'z') || ('A' <= path[0] <= 'Z')
        &&& path[1] == ':'
        &&& path[2] == '\\' || path[2] == '/'
    }
    ||| {
        &&& path.len() >= 2
        &&& path[0] == '\\'
        &&& path[1] == '\\'
    }
}

/// Neither a carriage return nor a line feed.
pub open spec fn is_on_one_line(text: Seq<char>) -> bool {
    forall|i: int| 0 <= i < text.len() ==> #[trigger] text[i] != '\r' && text[i] != '\n'
}

/// Nothing but carriage returns and line feeds.
pub open spec fn is_line_ends(text: Seq<char>) -> bool {
    forall|i: int| 0 <= i < text.len() ==> #[trigger] text[i] == '\r' || text[i] == '\n'
}

/// `path` in quotes, if there are any.
pub open spec fn in_quotes(path: Seq<char>, quote: Option<char>) -> Seq<char> {
    match quote {
        Some(quote) => seq![quote] + path + seq![quote],
        None => path,
    }
}

/// A path as it is pasted: in quotes or not, with a space behind it or not, and any line ends
/// after that.
pub open spec fn as_pasted(
    path: Seq<char>,
    quote: Option<char>,
    spaced: bool,
    ends: Seq<char>,
) -> Seq<char> {
    in_quotes(path, quote) + (if spaced {
        seq![' ']
    } else {
        seq![]
    }) + ends
}

/// A way to paste a path that cannot be mistaken for another: on one line, in quotes or without
/// quotes of its own, and without a space of its own where it is bare and none follows.
pub open spec fn is_plain_paste(
    path: Seq<char>,
    quote: Option<char>,
    spaced: bool,
    ends: Seq<char>,
) -> bool {
    &&& is_on_one_line(path)
    &&& is_line_ends(ends)
    &&& match quote {
        Some(quote) => quote == '\'' || quote == '"',
        None => {
            &&& !(path.len() >= 2 && path.first() == path.last() && (path.first() == '\''
                || path.first() == '"'))
            &&& !spaced && path.len() > 0 ==> path.last() != ' '
        },
    }
}

/// Line ends come off the end of a text, and only those.
proof fn lemma_without_line_end(core: Seq<char>, ends: Seq<char>)
    requires
        is_line_ends(ends),
        core.len() > 0 ==> !is_line_end(core.last()),
    ensures
        without_line_end(core + ends) == core,
    decreases ends.len(),
{
    if ends.len() == 0 {
        assert(core + ends =~= core);
    } else {
        let text = core + ends;
        assert(ends[ends.len() - 1] == ends.last());
        assert(text.last() == ends.last());
        assert(text.drop_last() =~= core + ends.drop_last());
        assert forall|i: int| 0 <= i < ends.drop_last().len() implies #[trigger] ends.drop_last()[i]
            == '\r' || ends.drop_last()[i] == '\n' by {
            assert(ends[i] == '\r' || ends[i] == '\n');
        }
        lemma_without_line_end(core, ends.drop_last());
    }
}

/// What is read from a plain paste: the path and whether a space followed, or nothing where the
/// path is empty.
proof fn lemma_plain_paste(path: Seq<char>, quote: Option<char>, spaced: bool, ends: Seq<char>)
    requires
        is_plain_paste(path, quote, spaced, ends),
    ensures
        pasted_path(as_pasted(path, quote, spaced, ends)) == (if path.len() > 0 {
            Some((path, spaced))
        } else {
            None
        }),
{
    let body = in_quotes(path, quote);
    let core = body + (if spaced {
        seq![' ']
    } else {
        seq![]
    });
    assert(forall|i: int| 0 <= i < body.len() ==> !is_line_end(#[trigger] body[i])) by {
        assert forall|i: int| 0 <= i < body.len() implies !is_line_end(#[trigger] body[i]) by {
            if quote is Some {
                if 0 < i < body.len() - 1 {
                    assert(body[i] == path[i - 1]);
                }
            } else {
                assert(body[i] == path[i]);
            }
        }
    }
    assert forall|i: int| 0 <= i < core.len() implies !is_line_end(#[trigger] core[i]) by {
        if i < body.len() {
            assert(core[i] == body[i]);
        }
    }
    if core.len() > 0 {
        assert(!is_line_end(core[core.len() - 1]));
    }
    lemma_without_line_end(core, ends);
    assert(as_pasted(path, quote, spaced, ends) == core + ends);
    if spaced {
        assert(core.drop_last() =~= body);
    } else {
        assert(core =~= body);
    }
    if quote is Some {
        assert(body.subrange(1, body.len() - 1) =~= path);
    }
    assert(unquoted(body) == path);
    if core.len() > 0 && !spaced {
        assert(core.last() != ' ');
    }
}

/// A pasted path is acted on by what it names, whether it stands in quotes and whether a space
/// or line ends follow it. An absolute Windows path is uploaded. For any other absolute path the
/// remote host is looked at first. Everything else goes to the Agent as it was pasted. An upload
/// is of the path itself, with the paste it came in, and knows whether a space followed.
pub proof fn law_pasted_path_is_acted_on(
    path: Seq<char>,
    quote: Option<char>,
    spaced: bool,
    ends: Seq<char>,
    action: ForwardAction,
)
    requires
        is_plain_paste(path, quote, spaced, ends),
        is_action_for(
            action,
            EventModel::Paste(encode_utf8(as_pasted(path, quote, spaced, ends))),
        ),
    ensures
        ({
            let payload = encode_utf8(as_pasted(path, quote, spaced, ends));
            if is_windows_path(path) {
                &&& action matches ForwardAction::Upload(file)
                &&& file.local.path@ == path
                &&& file.local.trailing_space == spaced
                &&& file.payload@ == payload
            } else if path.len() > 0 && path[0] == '/' {
                &&& action matches ForwardAction::LookUp(file)
                &&& file.local.path@ == path
                &&& file.local.trailing_space == spaced
                &&& file.payload@ == payload
            } else {
                action matches ForwardAction::Write(out) && out@ == opening() + payload + closing()
            }
        }),
{
    let text = as_pasted(path, quote, spaced, ends);
    lemma_plain_paste(path, quote, spaced, ends);
    encode_utf8_valid_utf8(text);
    encode_utf8_decode_utf8(text);
    law_frame_is_what_a_terminal_sends(encode_utf8(text));
    assert(is_windows_absolute(path) == is_windows_path(path));
}

/// The two ways in which a file is mostly pasted, with and without a space behind it, come to
/// the same action on the same path.
pub proof fn law_trailing_space_does_not_decide(
    path: Seq<char>,
    bare: ForwardAction,
    spaced: ForwardAction,
)
    requires
        path.len() > 0,
        is_plain_paste(path, None, false, seq![]),
        is_action_for(bare, EventModel::Paste(encode_utf8(path))),
        is_action_for(spaced, EventModel::Paste(encode_utf8(path.push(' ')))),
    ensures
        is_windows_path(path) ==> {
            &&& bare matches ForwardAction::Upload(a) && a.local.path@ == path
            &&& spaced matches ForwardAction::Upload(b) && b.local.path@ == path
        },
        !is_windows_path(path) && path[0] == '/' ==> {
            &&& bare matches ForwardAction::LookUp(a) && a.local.path@ == path
            &&& spaced matches ForwardAction::LookUp(b) && b.local.path@ == path
        },
        !is_windows_path(path) && path[0] != '/' ==> bare is Write && spaced is Write,
{
    assert(as_pasted(path, None, false, seq![]) =~= path);
    assert(as_pasted(path, None, true, seq![]) =~= path.push(' '));
    law_pasted_path_is_acted_on(path, None, false, seq![], bare);
    law_pasted_path_is_acted_on(path, None, true, seq![], spaced);
}

/// A line end that something other than line ends follows stays in the text.
proof fn lemma_line_end_stays(text: Seq<char>, i: int, j: int)
    requires
        0 <= i < j < text.len(),
        is_line_end(text[i]),
        !is_line_end(text[j]),
    ensures
        without_line_end(text).len() > i,
        is_line_end(without_line_end(text)[i]),
    decreases text.len(),
{
    if is_line_end(text.last()) {
        lemma_line_end_stays(text.drop_last(), i, j);
    }
}

/// A paste of several lines goes to the Agent as it was pasted, whatever stands in them.
pub proof fn law_several_lines_are_left_alone(
    text: Seq<char>,
    i: int,
    j: int,
    action: ForwardAction,
)
    requires
        0 <= i < j < text.len(),
        text[i] == '\r' || text[i] == '\n',
        text[j] != '\r' && text[j] != '\n',
        is_action_for(action, EventModel::Paste(encode_utf8(text))),
    ensures
        action matches ForwardAction::Write(out) && out@ == opening() + encode_utf8(text)
            + closing(),
{
    lemma_line_end_stays(text, i, j);
    encode_utf8_valid_utf8(text);
    encode_utf8_decode_utf8(text);
    law_frame_is_what_a_terminal_sends(encode_utf8(text));
    let line = without_line_end(text);
    assert(is_line_end(line[i]));
    assert(pasted_path(text) is None);
}

/// A paste that is not text goes to the Agent as it was pasted, and so do bytes that are no
/// paste, whatever they hold.
pub proof fn law_other_input_is_left_alone(bytes: Seq<u8>, paste: ForwardAction, typed: ForwardAction)
    requires
        !valid_utf8(bytes) ==> is_action_for(paste, EventModel::Paste(bytes)),
        is_action_for(typed, EventModel::Bytes(bytes)),
    ensures
        !valid_utf8(bytes) ==> (paste matches ForwardAction::Write(out) && out@ == opening()
            + bytes + closing()),
        typed matches ForwardAction::Write(out) && out@ == bytes,
{
    law_frame_is_what_a_terminal_sends(bytes);
}

/// A file dropped onto the terminal is uploaded: read in one piece, the paste that the terminal
/// makes of a Windows path is one event, and what is done about that event is to upload the
/// path.
pub proof fn law_dropped_file_is_uploaded(path: Seq<char>, spaced: bool, action: ForwardAction)
    requires
        is_windows_path(path),
        is_plain_paste(path, None, spaced, seq![]),
        !stands_in(closing(), encode_utf8(as_pasted(path, None, spaced, seq![]))),
        is_action_for(
            action,
            forwarding_step(
                seq![],
                false,
                SignalModel::Chunk(
                    opening() + encode_utf8(as_pasted(path, None, spaced, seq![])) + closing(),
                ),
            ).events[0],
        ),
    ensures
        action matches ForwardAction::Upload(file) && file.local.path@ == path
            && file.local.trailing_space == spaced,
{
    law_whole_paste_is_reported_as_a_paste(encode_utf8(as_pasted(path, None, spaced, seq![])));
    law_pasted_path_is_acted_on(path, None, spaced, seq![], action);
}

/// What a paste is taken for is told by the text alone: the path in it and whether a space
/// followed.
pub proof fn law_paste_is_taken_for_what_it_says(
    path: Seq<char>,
    quote: Option<char>,
    spaced: bool,
    ends: Seq<char>,
)
    requires
        is_plain_paste(path, quote, spaced, ends),
    ensures
        target_of(encode_utf8(as_pasted(path, quote, spaced, ends))) == (if is_windows_path(path) {
            TargetModel::Local { path, trailing_space: spaced }
        } else if path.len() > 0 && path[0] == '/' {
            TargetModel::LocalUnlessRemote { path, trailing_space: spaced }
        } else {
            TargetModel::NotLocal
        }),
{
    let text = as_pasted(path, quote, spaced, ends);
    lemma_plain_paste(path, quote, spaced, ends);
    encode_utf8_valid_utf8(text);
    encode_utf8_decode_utf8(text);
    assert(is_windows_absolute(path) == is_windows_path(path));
}

/// A target is what it holds.
pub proof fn law_target_is_what_it_holds(paste: LocalPathPaste)
    ensures
        PasteTarget::NotLocal@ == TargetModel::NotLocal,
        PasteTarget::Local(paste)@ == (TargetModel::Local {
            path: paste.path@,
            trailing_space: paste.trailing_space,
        }),
        PasteTarget::LocalUnlessRemote(paste)@ == (TargetModel::LocalUnlessRemote {
            path: paste.path@,
            trailing_space: paste.trailing_space,
        }),
{
}

/// A Windows path is one with a drive letter or a server, and nothing else is.
pub proof fn law_windows_paths_are_recognised(path: Seq<char>)
    ensures
        is_windows_absolute(path) <==> is_windows_path(path),
{
}

/// Quotes come off in pairs: a text in quotes is the text, and one that does not both begin and
/// end with the same quote stays as it is.
pub proof fn law_quotes_come_off_in_pairs(text: Seq<char>, quote: char)
    requires
        quote == '\'' || quote == '"',
    ensures
        unquoted(seq![quote] + text + seq![quote]) == text,
        text.len() < 2 || text.first() != text.last() || (text.first() != '\'' && text.first()
            != '"') ==> unquoted(text) == text,
{
    let whole = seq![quote] + text + seq![quote];
    assert(whole.subrange(1, whole.len() - 1) =~= text);
}

} // verus!
