//! What holds of the output and the failures of remote calls.
use crate::engine::remote_run;
use crate::engine::remote_run::RunOutcome;
use crate::engine::remote_run::UploadOutcome;
use crate::laws;
use crate::number;
use crate::split;
use crate::text;
use vstd::prelude::*;

verus! {

// ---------------------------------------------------------------------------
// Noise
// ---------------------------------------------------------------------------
/// The lines that start with `wsl:` or `wsl.`, behind white space or not, are noise.
pub proof fn law_noise(gap: Seq<char>, rest: Seq<char>)
    requires
        laws::all_white(gap),
    ensures
        remote_run::noise(gap + seq!['w', 's', 'l', ':'] + rest),
        remote_run::noise(gap + seq!['w', 's', 'l', '.'] + rest),
{
    reveal_strlit("wsl:");
    reveal_strlit("wsl.");
    let a = seq!['w', 's', 'l', ':'];
    let b = seq!['w', 's', 'l', '.'];
    lemma_gap(gap, a + rest);
    lemma_gap(gap, b + rest);
    assert(gap + a + rest =~= gap + (a + rest));
    assert(gap + b + rest =~= gap + (b + rest));
    assert("wsl:"@ =~= a);
    assert("wsl."@ =~= b);
    laws::law_starts(a + rest, "wsl:"@);
    laws::law_starts(b + rest, "wsl."@);
}

proof fn lemma_gap(gap: Seq<char>, rest: Seq<char>)
    requires
        laws::all_white(gap),
        rest.len() > 0 ==> !text::white(rest[0]),
    ensures
        text::trim_start(gap + rest) == rest,
{
    let whole = gap + rest;
    let n = gap.len() as int;
    assert forall|j: int| 0 <= j < n implies text::white(#[trigger] whole[j]) by {
        assert(whole[j] == gap[j]);
    }
    if rest.len() > 0 {
        assert(whole[n] == rest[0]);
    }
    text::lemma_trim_start(whole, n);
    assert(whole.skip(n) =~= rest);
}

/// No other line is noise.
pub proof fn law_no_noise(gap: Seq<char>, rest: Seq<char>)
    requires
        laws::all_white(gap),
        rest.len() > 0 ==> !text::white(rest[0]),
        rest.len() >= 4 ==> !(rest[0] == 'w' && rest[1] == 's' && rest[2] == 'l' && (rest[3] == ':'
            || rest[3] == '.')),
    ensures
        !remote_run::noise(gap + rest),
{
    reveal_strlit("wsl:");
    reveal_strlit("wsl.");
    lemma_gap(gap, rest);
    if split::starts(rest, "wsl:"@) {
        let start = rest.take(4);
        assert(start[0] == 'w' && start[1] == 's' && start[2] == 'l' && start[3] == ':');
    }
    if split::starts(rest, "wsl."@) {
        let start = rest.take(4);
        assert(start[0] == 'w' && start[1] == 's' && start[2] == 'l' && start[3] == '.');
    }
}

proof fn lemma_payload_first(line: Seq<char>, lines: Seq<Seq<char>>)
    ensures
        remote_run::payload(seq![line] + lines) == (if remote_run::noise(line) {
            Seq::<char>::empty()
        } else {
            line.push('\n')
        }) + remote_run::payload(lines),
    decreases lines.len(),
{
    let all = seq![line] + lines;
    let first = if remote_run::noise(line) {
        Seq::<char>::empty()
    } else {
        line.push('\n')
    };
    if lines.len() == 0 {
        assert(all.drop_last() =~= lines);
        assert(remote_run::payload(lines) =~= seq![]);
        assert(remote_run::payload(all) =~= first + remote_run::payload(lines));
    } else {
        lemma_payload_first(line, lines.drop_last());
        assert(all.drop_last() =~= seq![line] + lines.drop_last());
        assert(remote_run::payload(all) =~= first + remote_run::payload(lines));
    }
}

/// Output is stripped line by line: a line that is noise leaves nothing, any other leaves itself
/// and a line feed, and what follows is stripped on its own.
pub proof fn law_stripped_by_line(line: Seq<char>, rest: Seq<char>)
    requires
        laws::lacks(line, '\n'),
        laws::lacks(line, '\0'),
        laws::lacks(line, '\r'),
    ensures
        remote_run::denoised(line + seq!['\n'] + rest) == (if remote_run::noise(line) {
            Seq::<char>::empty()
        } else {
            line + seq!['\n']
        }) + remote_run::denoised(rest),
        remote_run::denoised(line + seq!['\r', '\n'] + rest) == remote_run::denoised(
            line + seq!['\n'] + rest,
        ),
        line.len() > 0 ==> remote_run::denoised(line) == (if remote_run::noise(line) {
            Seq::<char>::empty()
        } else {
            line + seq!['\n']
        }),
        remote_run::denoised(seq![]) == Seq::<char>::empty(),
{
    let clean = text::without(rest, '\0');
    let short = line + seq!['\n'];
    let long = line + seq!['\r', '\n'];
    text::lemma_without_none(line, '\0');
    lemma_without_add(short, rest);
    lemma_without_add(long, rest);
    text::lemma_without_none(short, '\0');
    text::lemma_without_none(long, '\0');
    laws::law_first_line(line, clean);
    let cr = line + seq!['\r'];
    laws::law_first_line(cr, clean);
    assert(long + clean =~= cr + seq!['\n'] + clean);
    assert(cr.drop_last() =~= line);
    lemma_payload_first(line, split::lines(clean));
    assert(line.push('\n') =~= line + seq!['\n']);
    assert(text::without(seq![], '\0') =~= seq![]);
    laws::law_last_line(seq![]);
    assert(remote_run::denoised(seq![]) =~= seq![]);
    if line.len() > 0 {
        laws::law_last_line(line);
        lemma_payload_first(line, seq![]);
        assert(seq![line] + Seq::<Seq<char>>::empty() =~= seq![line]);
        assert(remote_run::payload(seq![]) =~= seq![]);
        let left = if remote_run::noise(line) {
            Seq::<char>::empty()
        } else {
            line + seq!['\n']
        };
        assert(remote_run::denoised(line) =~= left);
    }
}

proof fn lemma_without_add(a: Seq<char>, b: Seq<char>)
    ensures
        text::without(a + b, '\0') == text::without(a, '\0') + text::without(b, '\0'),
    decreases b.len(),
{
    if b.len() == 0 {
        assert(a + b =~= a);
        assert(text::without(b, '\0') =~= seq![]);
        assert(text::without(a, '\0') + text::without(b, '\0') =~= text::without(a, '\0'));
    } else {
        assert((a + b).drop_last() =~= a + b.drop_last());
        lemma_without_add(a, b.drop_last());
        assert(text::without(a + b, '\0') =~= text::without(a, '\0') + text::without(b, '\0'));
    }
}

/// NUL characters make no difference, wherever they stand.
pub proof fn law_nul_makes_no_difference(a: Seq<char>, b: Seq<char>)
    ensures
        remote_run::denoised(a + seq!['\0'] + b) == remote_run::denoised(a + b),
{
    lemma_without_add(a + seq!['\0'], b);
    lemma_without_add(a, seq!['\0']);
    lemma_without_add(a, b);
    let nul = seq!['\0'];
    assert(nul.drop_last() =~= seq![]);
    reveal_with_fuel(text::without, 2);
    assert(text::without(nul, '\0') =~= seq![]);
    assert(text::without(a + seq!['\0'] + b, '\0') =~= text::without(a + b, '\0'));
}

// ---------------------------------------------------------------------------
// Failures
// ---------------------------------------------------------------------------
/// A script counts as stored exactly when the call ended with success, and each other end has a
/// message of its own, which holds the whole error.
pub proof fn law_upload_failures(outcome: UploadOutcome)
    ensures
        remote_run::upload_error(outcome) is None <==> outcome == (UploadOutcome::Ended {
            success: true,
        }),
        outcome matches UploadOutcome::NotStarted(e) ==> remote_run::upload_error(outcome) == Some(
            "ssh 脚本上传失败: "@ + e@,
        ),
        outcome matches UploadOutcome::NotWritten(e) ==> remote_run::upload_error(outcome) == Some(
            "ssh 脚本写入失败: "@ + e@,
        ),
        outcome matches UploadOutcome::NotAwaited(e) ==> remote_run::upload_error(outcome) == Some(
            "ssh 脚本上传等待失败: "@ + e@,
        ),
        outcome == UploadOutcome::TimedOut ==> remote_run::upload_error(outcome) == Some(
            "ssh 脚本上传超时("@ + seq!['3', '0'] + "s,检查远程主机是否无响应)"@,
        ),
        outcome == (UploadOutcome::Ended { success: false }) ==> remote_run::upload_error(outcome)
            == Some("ssh 脚本上传失败(检查远程主机连接/认证;ControlMaster 可能已过期,请重连该主机)"@),
{
    lemma_thirty();
}

proof fn lemma_thirty()
    ensures
        number::decimal(remote_run::REMOTE_CALL_TIMEOUT_SECS as nat) == seq!['3', '0'],
{
    laws::law_decimal(3, 0);
    laws::law_decimal(0, 3);
    assert(number::decimal(30) =~= seq!['3', '0']);
}

/// A run gives its output exactly when it ended with success, and each other end has a message of
/// its own.
pub proof fn law_run_failures(outcome: RunOutcome)
    ensures
        remote_run::output_of(outcome) is Ok <==> outcome is Ended && outcome->success,
        outcome matches RunOutcome::Ended { success: true, stdout, .. } ==> remote_run::output_of(
            outcome,
        )->Ok_0 == remote_run::denoised(text::lossy_text(stdout@)),
        outcome matches RunOutcome::Failed(e) ==> remote_run::output_of(outcome)->Err_0
            == "远程命令执行失败: "@ + e@,
        outcome == RunOutcome::TimedOut ==> remote_run::output_of(outcome)->Err_0
            == "远程命令超时("@ + seq!['3', '0'] + "s,检查远程主机是否无响应)"@,
        outcome matches RunOutcome::Ended { success: false, code, stderr, .. }
            ==> remote_run::output_of(outcome)->Err_0 == remote_run::exit_text(
            code,
            text::lossy_text(stderr@),
        ),
{
    lemma_thirty();
}

/// The message of a failed script shows its exit code, or that it has none, and its complaint
/// without the white space around it.
pub proof fn law_exit_message(
    n: i32,
    front: Seq<char>,
    complaint: Seq<char>,
    back: Seq<char>,
)
    requires
        laws::all_white(front),
        laws::all_white(back),
        laws::solid(complaint),
    ensures
        remote_run::exit_text(Some(n), front + complaint + back) == "远程命令退出码 "@ + "Some("@
            + number::integer(n as int) + ")"@ + ": "@ + complaint,
        remote_run::exit_text(None, front + complaint + back) == "远程命令退出码 "@ + "None"@ + ": "@
            + complaint,
        remote_run::exit_text(None, front) == "远程命令退出码 "@ + "None"@ + ": "@,
{
    laws::law_trim(front, complaint, back);
    laws::law_trim_blank(front);
    assert(remote_run::exit_text(Some(n), front + complaint + back) =~= "远程命令退出码 "@ + "Some("@
        + number::integer(n as int) + ")"@ + ": "@ + complaint);
    assert(remote_run::exit_text(None, front) =~= "远程命令退出码 "@ + "None"@ + ": "@);
}

} // verus!
