//! `command`: runs a shell command. The library reads the command from the
//! inputs, caps what is kept of its output, and builds the result; running
//! the process is left to the caller.

use vstd::prelude::*;
use vstd::utf8::{valid_utf8, decode_utf8};
use crate::json::{Json, JsonNumber, JsonV, jv, get};
use crate::text::{to_string, push_str};
use crate::operator::types::{OperatorError, OperatorSpec};
use crate::operator::builtin::{get_str, str_or};
use crate::operator::builtin::http_client::MAX_STDIO_BYTES;

verus! {

pub struct CommandOperator;

/// A command to run, as the inputs give it.
pub struct CommandRequest {
    pub command: String,
    /// The shell that runs it with `-c` (`sh` by default).
    pub shell: String,
    /// Text written to the command's standard input, if any.
    pub stdin: Option<String>,
}

/// The text `String::from_utf8_lossy` makes of bytes: invalid sequences
/// become U+FFFD.
pub uninterp spec fn lossy_text(bytes: Seq<u8>) -> Seq<char>;

/// `String::from_utf8_lossy` (std). Valid UTF-8 decodes as it is.
#[verifier::external_body]
pub(crate) fn utf8_lossy(bytes: &[u8]) -> (r: String)
    ensures
        r@ == lossy_text(bytes@),
        valid_utf8(bytes@) ==> r@ == decode_utf8(bytes@),
{
    String::from_utf8_lossy(bytes).into_owned()
}

/// Keeps the first `max` bytes of a stream read chunk by chunk, and counts
/// all of them: a chunk adds to `total`, and as much of it is kept as fits.
pub fn capture_chunk(buf: &mut Vec<u8>, total: &mut usize, chunk: &[u8], max: usize)
    requires
        *old(total) + chunk@.len() <= usize::MAX,
    ensures
        *final(total) == *old(total) + chunk@.len(),
        old(buf)@.len() < max ==> final(buf)@ == old(buf)@ + chunk@.take(
            if max - old(buf)@.len() < chunk@.len() { max - old(buf)@.len() } else { chunk@.len() as int },
        ),
        old(buf)@.len() >= max ==> final(buf)@ == old(buf)@,
        old(buf)@.len() <= max ==> final(buf)@.len() <= max,
{
    *total = *total + chunk.len();
    if buf.len() < max {
        let room = max - buf.len();
        let keep = if room < chunk.len() {
            room
        } else {
            chunk.len()
        };
        let ghost start = buf@;
        let mut i: usize = 0;
        while i < keep
            invariant
                i <= keep <= chunk@.len(),
                buf@ == start + chunk@.subrange(0, i as int),
            decreases keep - i,
        {
            buf.push(chunk[i]);
            assert(chunk@.subrange(0, i + 1) =~= chunk@.subrange(0, i as int).push(chunk@[i as int]));
            i = i + 1;
        }
        assert(chunk@.take(keep as int) =~= chunk@.subrange(0, keep as int));
    }
}

/// Captured output as text, with a note when it was cut.
pub open spec fn captured_text(bytes: Seq<u8>, truncated: bool, name: Seq<char>) -> Seq<char> {
    lossy_text(bytes) + if truncated {
        "\n[weave: "@ + name + " truncated at 10MB]"@
    } else {
        Seq::empty()
    }
}

/// The command's result: `{"exit_code", "stderr", "stdout", "success", "truncated"}`.
pub open spec fn command_output(
    stdout: Seq<u8>,
    stdout_total: int,
    stderr: Seq<u8>,
    stderr_total: int,
    code: Option<i32>,
    success: bool,
) -> JsonV {
    let out_cut = stdout_total > MAX_STDIO_BYTES;
    let err_cut = stderr_total > MAX_STDIO_BYTES;
    JsonV::Object(
        seq![
            ("exit_code"@, JsonV::Int(match code { Some(c) => c as int, None => -1 })),
            ("stderr"@, JsonV::Str(captured_text(stderr, err_cut, "stderr"@))),
            ("stdout"@, JsonV::Str(captured_text(stdout, out_cut, "stdout"@))),
            ("success"@, JsonV::Bool(success)),
            ("truncated"@, JsonV::Bool(out_cut || err_cut)),
        ],
    )
}

impl CommandOperator {
    pub fn spec(&self) -> (r: OperatorSpec)
        ensures
            r.op_type@ == "command"@,
            r.description@ == "执行 shell 命令"@,
            !r.iterate,
            !r.cache,
    {
        OperatorSpec::new("command", "执行 shell 命令").with_cache(false)
    }

    /// The command the inputs describe; `command` is required.
    pub fn request(&self, inputs: &Json) -> (r: Result<CommandRequest, OperatorError>)
        ensures
            match get_str(*inputs, "command"@) {
                None => r matches Err(OperatorError::Config(m)) && m@ == "command 算子需要 command 字段"@,
                Some(c) => r matches Ok(q) && q.command@ == c && q.shell@ == (match get_str(*inputs, "shell"@) {
                    Some(s) => s,
                    None => "sh"@,
                }) && match get_str(*inputs, "stdin"@) {
                    Some(s) => q.stdin matches Some(x) && x@ == s,
                    None => q.stdin is None,
                },
            },
    {
        let command = match get(inputs, "command") {
            Some(Json::Str(c)) => to_string(c.as_str()),
            _ => {
                return Err(OperatorError::Config(to_string("command 算子需要 command 字段")));
            },
        };
        let shell = str_or(inputs, "shell", "sh");
        let stdin = match get(inputs, "stdin") {
            Some(Json::Str(s)) => Some(to_string(s.as_str())),
            _ => None,
        };
        Ok(CommandRequest { command, shell, stdin })
    }

    /// The result of a finished command, from what was captured of its
    /// output and how many bytes it wrote in all.
    pub fn output(
        &self,
        stdout: &Vec<u8>,
        stdout_total: usize,
        stderr: &Vec<u8>,
        stderr_total: usize,
        code: Option<i32>,
        success: bool,
    ) -> (r: Json)
        ensures
            jv(r) == command_output(stdout@, stdout_total as int, stderr@, stderr_total as int, code, success),
    {
        let out_cut = stdout_total > MAX_STDIO_BYTES;
        let err_cut = stderr_total > MAX_STDIO_BYTES;
        let mut out_text = utf8_lossy(stdout.as_slice());
        if out_cut {
            push_str(&mut out_text, "\n[weave: stdout truncated at 10MB]");
        }
        let mut err_text = utf8_lossy(stderr.as_slice());
        if err_cut {
            push_str(&mut err_text, "\n[weave: stderr truncated at 10MB]");
        }
        proof {
            reveal_strlit("\n[weave: stdout truncated at 10MB]");
            reveal_strlit("\n[weave: stderr truncated at 10MB]");
            reveal_strlit("\n[weave: ");
            reveal_strlit(" truncated at 10MB]");
            reveal_strlit("stdout");
            reveal_strlit("stderr");
            assert("\n[weave: stdout truncated at 10MB]"@ =~= "\n[weave: "@ + "stdout"@ + " truncated at 10MB]"@);
            assert("\n[weave: stderr truncated at 10MB]"@ =~= "\n[weave: "@ + "stderr"@ + " truncated at 10MB]"@);
            assert(out_text@ =~= captured_text(stdout@, out_cut, "stdout"@));
            assert(err_text@ =~= captured_text(stderr@, err_cut, "stderr"@));
        }
        let exit_code: i32 = match code {
            Some(c) => c,
            None => -1,
        };
        let mut es: Vec<(String, Json)> = Vec::new();
        es.push((to_string("exit_code"), Json::Number(JsonNumber::Int(exit_code as i128))));
        es.push((to_string("stderr"), Json::Str(err_text)));
        es.push((to_string("stdout"), Json::Str(out_text)));
        es.push((to_string("success"), Json::Bool(success)));
        es.push((to_string("truncated"), Json::Bool(out_cut || err_cut)));
        let r = Json::Object(es);
        proof {
            crate::dsl::refs::lemma_jv_object(r);
            assert(crate::dsl::refs::entries_jv(es@) =~= match command_output(
                stdout@,
                stdout_total as int,
                stderr@,
                stderr_total as int,
                code,
                success,
            ) {
                JsonV::Object(e) => e,
                _ => Seq::empty(),
            });
        }
        r
    }
}

} // verus!
