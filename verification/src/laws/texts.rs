//! What texts are made of: trimming, splitting, numbers, and the words of errors.
use vstd::prelude::*;
use crate::bridge::{bridge_error_text, BridgeError};
use crate::connect::{
    failure_report, mismatch_text, upload_error_text, LaunchError, UploadError,
};
use crate::proxy::{failure_notice, replacement};
use crate::text::{
    decimal_digits, is_white_space, lossy_chars, pieces, trimmed, trimmed_end, trimmed_start,
};
use crate::uploader::{last_absolute, run_report, uploader_error_text, UploaderError};

verus! {

/// Nothing but white space.
pub open spec fn is_blank(s: Seq<char>) -> bool {
    forall|i: int| 0 <= i < s.len() ==> is_white_space(#[trigger] s[i])
}

/// Trimming the end takes off white space and nothing else, and leaves none there.
pub proof fn law_trimmed_end_keeps_the_rest(s: Seq<char>)
    ensures
        trimmed_end(s).is_prefix_of(s),
        is_blank(s.subrange(trimmed_end(s).len() as int, s.len() as int)),
        trimmed_end(s).len() > 0 ==> !is_white_space(trimmed_end(s).last()),
    decreases s.len(),
{
    if s.len() > 0 && is_white_space(s.last()) {
        law_trimmed_end_keeps_the_rest(s.drop_last());
        let n = trimmed_end(s).len() as int;
        let cut = s.drop_last().subrange(n, s.len() - 1);
        assert(s.drop_last().subrange(0, n) =~= s.subrange(0, n));
        assert forall|i: int| 0 <= i < s.len() - n implies is_white_space(
            #[trigger] s.subrange(n, s.len() as int)[i],
        ) by {
            if i < cut.len() {
                assert(cut[i] == s[n + i]);
            }
        }
    } else {
        assert(s.subrange(0, s.len() as int) =~= s);
    }
}

/// Trimming the start takes off white space and nothing else, and leaves none there.
proof fn lemma_trimmed_start(s: Seq<char>)
    ensures
        trimmed_start(s).is_suffix_of(s),
        is_blank(s.subrange(0, s.len() - trimmed_start(s).len())),
        trimmed_start(s).len() > 0 ==> !is_white_space(trimmed_start(s).first()),
    decreases s.len(),
{
    if s.len() > 0 && is_white_space(s.first()) {
        let rest = s.drop_first();
        lemma_trimmed_start(rest);
        let n = trimmed_start(s).len();
        let cut = rest.subrange(0, rest.len() - n);
        assert(rest.subrange(rest.len() - n, rest.len() as int) =~= s.subrange(
            s.len() - n,
            s.len() as int,
        ));
        assert forall|i: int| 0 <= i < s.len() - n implies is_white_space(
            #[trigger] s.subrange(0, s.len() - n)[i],
        ) by {
            if i > 0 {
                assert(cut[i - 1] == s[i]);
            }
        }
    } else {
        assert(s.subrange(0, s.len() as int) =~= s);
    }
}

/// A trimmed text has no white space at its ends, and with white space around it, it is the
/// text again.
pub proof fn law_trimmed_text_is_the_middle(s: Seq<char>)
    ensures
        trimmed(s).len() > 0 ==> !is_white_space(trimmed(s).first()) && !is_white_space(
            trimmed(s).last(),
        ),
        exists|front: Seq<char>, back: Seq<char>|
            #[trigger] is_blank(front) && #[trigger] is_blank(back) && s == front + trimmed(s)
                + back,
{
    let kept = trimmed_end(s);
    law_trimmed_end_keeps_the_rest(s);
    lemma_trimmed_start(kept);
    let n = trimmed(s).len();
    let front = kept.subrange(0, kept.len() - n);
    let back = s.subrange(kept.len() as int, s.len() as int);
    assert(kept =~= front + trimmed(s));
    assert(s =~= kept + back);
    assert(is_blank(front) && is_blank(back));
}

/// The pieces with the separator between them.
pub open spec fn rejoined<A>(parts: Seq<Seq<A>>, separator: A) -> Seq<A>
    decreases parts.len(),
{
    if parts.len() == 0 {
        seq![]
    } else if parts.len() == 1 {
        parts[0]
    } else {
        rejoined(parts.drop_last(), separator).push(separator) + parts.last()
    }
}

/// Splitting loses nothing and leaves no separator: the pieces hold none, and with one between
/// any two of them they are the whole again.
pub proof fn law_pieces_are_the_whole<A>(s: Seq<A>, separator: A)
    ensures
        pieces(s, separator).len() > 0,
        rejoined(pieces(s, separator), separator) == s,
        forall|i: int|
            0 <= i < pieces(s, separator).len() ==> !(#[trigger] pieces(s, separator)[i]).contains(
                separator,
            ),
    decreases s.len(),
{
    let parts = pieces(s, separator);
    if s.len() == 0 {
        assert(rejoined(parts, separator) =~= s);
    } else {
        let before = pieces(s.drop_last(), separator);
        law_pieces_are_the_whole(s.drop_last(), separator);
        assert(s.drop_last().push(s.last()) =~= s);
        if s.last() == separator {
            assert(parts.drop_last() =~= before);
            assert(rejoined(parts, separator) =~= s);
        } else {
            let old_last = before.last();
            let new_last = parts.last();
            assert(parts.drop_last() =~= before.drop_last());
            assert(rejoined(parts, separator) =~= rejoined(before, separator).push(s.last()));
            assert(!old_last.contains(separator)) by {
                assert(before[before.len() - 1] == old_last);
            }
            assert forall|i: int| 0 <= i < parts.len() implies !(#[trigger] parts[i]).contains(
                separator,
            ) by {
                if i < parts.len() - 1 {
                    assert(parts[i] == before[i]);
                } else if new_last.contains(separator) {
                    let k = choose|k: int| 0 <= k < new_last.len() && new_last[k] == separator;
                    assert(old_last[k] == separator);
                }
            }
        }
    }
}

/// The number that a text of decimal digits stands for.
pub open spec fn number_of(digits: Seq<char>) -> int
    decreases digits.len(),
{
    if digits.len() == 0 {
        0
    } else {
        10 * number_of(digits.drop_last()) + (digits.last() as int - 48)
    }
}

/// A number in decimal reads back as that number; it is made of digits, and only zero starts
/// with one.
pub proof fn law_decimal_reads_back(n: nat)
    ensures
        number_of(decimal_digits(n)) == n,
        decimal_digits(n).len() > 0,
        forall|i: int|
            0 <= i < decimal_digits(n).len() ==> '0' <= #[trigger] decimal_digits(n)[i] <= '9',
        decimal_digits(n)[0] == '0' ==> n == 0,
    decreases n,
{
    let digits = decimal_digits(n);
    assert(digits.last() as int == 48 + n % 10);
    if n < 10 {
        assert(digits.drop_last() =~= seq![]);
        assert(number_of(digits.drop_last()) == 0);
    } else {
        law_decimal_reads_back(n / 10);
        assert(digits.drop_last() =~= decimal_digits(n / 10));
        assert(digits[0] == decimal_digits(n / 10)[0]);
    }
}

/// `text` is `front` and then `rest`, and nothing else.
pub open spec fn says(text: Seq<char>, front: Seq<char>, rest: Seq<char>) -> bool {
    &&& front.is_prefix_of(text)
    &&& rest.is_suffix_of(text)
    &&& text.len() == front.len() + rest.len()
}

/// Two texts, one behind the other.
proof fn lemma_says(front: Seq<char>, rest: Seq<char>)
    ensures
        says(front + rest, front, rest),
{
    let text = front + rest;
    assert(text.subrange(0, front.len() as int) =~= front);
    assert(text.subrange(text.len() - rest.len(), text.len() as int) =~= rest);
}

/// An upload error says what failed and then names the path, or the system's reason, whole.
/// Where `tssh` gave up, both things that it printed go into the report.
pub proof fn law_upload_errors_name_their_cause(
    path: String,
    reason: String,
    launch: LaunchError,
    stderr: Vec<u8>,
    stdout: Vec<u8>,
)
    ensures
        upload_error_text(UploadError::Failed { status: reason, stderr, stdout })
            == failure_report(reason@, lossy_chars(stderr@), lossy_chars(stdout@)),
        says(
            upload_error_text(UploadError::NotAbsolute(path)),
            "local path is not absolute: "@,
            path@,
        ),
        says(
            upload_error_text(UploadError::NoSuchFile(path)),
            "local file does not exist: "@,
            path@,
        ),
        says(
            upload_error_text(UploadError::Unresolved { path, reason }),
            "failed to resolve "@ + path@,
            ": "@ + reason@,
        ),
        says(
            upload_error_text(UploadError::NotStarted(launch)),
            "failed to start "@ + launch.program@,
            " for side-channel upload: "@ + launch.reason@,
        ),
{
    lemma_says("local path is not absolute: "@, path@);
    lemma_says("local file does not exist: "@, path@);
    lemma_says("failed to resolve "@ + path@, ": "@ + reason@);
    assert(upload_error_text(UploadError::Unresolved { path, reason }) =~= ("failed to resolve "@
        + path@) + (": "@ + reason@));
    lemma_says(
        "failed to start "@ + launch.program@,
        " for side-channel upload: "@ + launch.reason@,
    );
    assert(upload_error_text(UploadError::NotStarted(launch)) =~= ("failed to start "@
        + launch.program@) + (" for side-channel upload: "@ + launch.reason@));
}

/// A report of a failed upload says how `tssh` ended and then what it complained of, without the
/// white space around that; what else it printed follows in brackets, where that is anything.
pub proof fn law_failure_report_shows_everything(
    status: Seq<char>,
    stderr: Seq<char>,
    stdout: Seq<char>,
)
    ensures
        is_blank(stdout) ==> says(
            failure_report(status, stderr, stdout),
            "tssh upload failed with "@ + status,
            ": "@ + trimmed(stderr),
        ),
        !is_blank(stdout) ==> says(
            failure_report(status, stderr, stdout),
            "tssh upload failed with "@ + status + ": "@ + trimmed(stderr),
            " ("@ + trimmed(stdout) + ")"@,
        ),
{
    let head = "tssh upload failed with "@ + status;
    let text = failure_report(status, stderr, stdout);
    lemma_blank(stdout);
    if is_blank(stdout) {
        lemma_says(head, ": "@ + trimmed(stderr));
        assert(text =~= head + (": "@ + trimmed(stderr)));
    } else {
        let front = head + ": "@ + trimmed(stderr);
        lemma_says(front, " ("@ + trimmed(stdout) + ")"@);
        assert(text =~= front + (" ("@ + trimmed(stdout) + ")"@));
    }
}

/// Trimming leaves nothing of a text exactly if it is all white space.
proof fn lemma_blank(s: Seq<char>)
    ensures
        is_blank(s) <==> trimmed(s).len() == 0,
{
    law_trimmed_text_is_the_middle(s);
    let middle = trimmed(s);
    let (front, back) = choose|front: Seq<char>, back: Seq<char>|
        #[trigger] is_blank(front) && #[trigger] is_blank(back) && s == front + middle + back;
    if is_blank(s) && middle.len() > 0 {
        assert(s[front.len() as int] == middle.first());
    }
    if middle.len() == 0 {
        assert forall|i: int| 0 <= i < s.len() implies is_white_space(#[trigger] s[i]) by {
            if i < front.len() {
                assert(s[i] == front[i]);
            } else {
                assert(s[i] == back[i - front.len()]);
            }
        }
    }
}

/// The complaint about another version gives that version as a number.
pub proof fn law_mismatch_names_the_version(version: u32)
    ensures
        exists|digits: Seq<char>|
            #[trigger] number_of(digits) == version && mismatch_text(version)
                == "protocol version mismatch: client="@ + digits + ", bridge=1"@,
{
    reveal_strlit(", bridge=");
    reveal_strlit(", bridge=1");
    law_decimal_reads_back(version as nat);
    assert(decimal_digits(1) =~= seq!['1']);
    assert(", bridge=1"@ =~= ", bridge="@ + seq!['1']);
    let digits = decimal_digits(version as nat);
    assert(number_of(digits) == version);
    assert(mismatch_text(version) =~= "protocol version mismatch: client="@ + digits
        + ", bridge=1"@);
}

/// What a bridge or the system gave as a reason is passed on word for word, and an unsafe path
/// is named whole.
pub proof fn law_bridge_errors_name_their_cause(text: String)
    ensures
        bridge_error_text(BridgeError::Io(text)) == text@,
        bridge_error_text(BridgeError::Refused(text)) == text@,
        says(
            bridge_error_text(BridgeError::UnsafePath(text)),
            "bridge returned unsafe relative path: "@,
            text@,
        ),
{
    lemma_says("bridge returned unsafe relative path: "@, text@);
}

/// The notice of a failed upload is a line of its own that gives the reason in full.
pub proof fn law_notice_gives_the_reason(error: BridgeError)
    ensures
        says(
            failure_notice(error),
            "\r\n[agentdrop] upload failed: "@,
            bridge_error_text(error) + "\r\n"@,
        ),
{
    lemma_says("\r\n[agentdrop] upload failed: "@, bridge_error_text(error) + "\r\n"@);
    assert(failure_notice(error) =~= "\r\n[agentdrop] upload failed: "@ + (bridge_error_text(error)
        + "\r\n"@));
}

/// The text that takes the place of a local path is the remote path, and a space exactly if one
/// was pasted.
pub proof fn law_replacement_is_the_remote_path(remote_path: Seq<char>, trailing_space: bool)
    ensures
        trailing_space ==> says(replacement(remote_path, trailing_space), remote_path, seq![' ']),
        !trailing_space ==> says(replacement(remote_path, trailing_space), remote_path, seq![]),
{
    lemma_says(remote_path, seq![' ']);
    lemma_says(remote_path, seq![]);
    assert(remote_path + seq![' '] =~= remote_path.push(' '));
    assert(remote_path + Seq::<char>::empty() =~= remote_path);
}

/// An uploader error says what failed and then names its cause, whole but for the white space
/// around what `tssh` printed.
pub proof fn law_uploader_errors_name_their_cause(
    path: String,
    launch: LaunchError,
    status: String,
    stderr: Vec<u8>,
)
    ensures
        says(
            uploader_error_text(UploaderError::NotAFile(path)),
            "only regular files are supported: "@,
            path@,
        ),
        says(
            uploader_error_text(UploaderError::NotLaunched(launch)),
            "failed to launch "@,
            launch.program@,
        ),
        says(
            uploader_error_text(UploaderError::DirectoryFailed { status, stderr }),
            "failed to create remote drop directory with "@ + status@,
            ": "@ + trimmed(lossy_chars(stderr@)),
        ),
        says(
            uploader_error_text(UploaderError::UploadFailed { status, stderr }),
            "tssh upload failed with "@ + status@,
            ": "@ + trimmed(lossy_chars(stderr@)),
        ),
{
    let tail = ": "@ + trimmed(lossy_chars(stderr@));
    let made = "failed to create remote drop directory with "@;
    let sent = "tssh upload failed with "@;
    lemma_says("only regular files are supported: "@, path@);
    lemma_says("failed to launch "@, launch.program@);
    lemma_says(made + status@, tail);
    lemma_says(sent + status@, tail);
    assert(run_report(made, status@, lossy_chars(stderr@)) =~= made + status@ + tail);
    assert(run_report(sent, status@, lossy_chars(stderr@)) =~= sent + status@ + tail);
}

/// A report of a failed run says what failed, how the run ended, and what it complained of.
pub proof fn law_run_report_shows_everything(
    what: Seq<char>,
    status: Seq<char>,
    stderr: Seq<char>,
)
    ensures
        says(run_report(what, status, stderr), what + status, ": "@ + trimmed(stderr)),
{
    lemma_says(what + status, ": "@ + trimmed(stderr));
    assert(run_report(what, status, stderr) =~= (what + status) + (": "@ + trimmed(stderr)));
}

/// A line that is an absolute path once the white space around it is gone.
pub open spec fn holds_absolute_path(line: Seq<char>) -> bool {
    trimmed(line).len() > 0 && trimmed(line)[0] == '/'
}

/// The directory that is read from a list of lines is the last absolute path among them: it
/// stands on some line, and on no later one stands another. There is none exactly if no line
/// holds one.
pub proof fn law_last_absolute_line_counts(lines: Seq<Seq<char>>)
    ensures
        match last_absolute(lines) {
            Some(path) => exists|i: int|
                {
                    &&& 0 <= i < lines.len()
                    &&& path == trimmed(#[trigger] lines[i])
                    &&& holds_absolute_path(lines[i])
                    &&& forall|j: int| i < j < lines.len() ==> !holds_absolute_path(
                        #[trigger] lines[j],
                    )
                },
            None => forall|i: int|
                0 <= i < lines.len() ==> !holds_absolute_path(#[trigger] lines[i]),
        },
    decreases lines.len(),
{
    if lines.len() > 0 {
        let rest = lines.drop_last();
        law_last_absolute_line_counts(rest);
        if holds_absolute_path(lines.last()) {
            assert(last_absolute(lines) == Some(trimmed(lines[lines.len() - 1])));
        } else {
            match last_absolute(rest) {
                Some(path) => {
                    let i = choose|i: int|
                        {
                            &&& 0 <= i < rest.len()
                            &&& path == trimmed(#[trigger] rest[i])
                            &&& holds_absolute_path(rest[i])
                            &&& forall|j: int| i < j < rest.len() ==> !holds_absolute_path(
                                #[trigger] rest[j],
                            )
                        };
                    assert(lines[i] == rest[i]);
                    assert forall|j: int| i < j < lines.len() implies !holds_absolute_path(
                        #[trigger] lines[j],
                    ) by {
                        if j < rest.len() {
                            assert(rest[j] == lines[j]);
                        }
                    }
                },
                None => {
                    assert forall|i: int| 0 <= i < lines.len() implies !holds_absolute_path(
                        #[trigger] lines[i],
                    ) by {
                        if i < rest.len() {
                            assert(rest[i] == lines[i]);
                        }
                    }
                },
            }
        }
    }
}

} // verus!
