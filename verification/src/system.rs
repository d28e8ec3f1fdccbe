//! What helper programs and helper processes of the system answer.

use vstd::prelude::*;
use vstd::string::*;

use crate::nic;
use crate::text;
use crate::text_laws;

verus! {

// ---------------------------------------------------------------- system version

/// The first piece that holds `mark`.
pub open spec fn first_with(pieces: Seq<Seq<char>>, mark: Seq<char>) -> Option<Seq<char>>
    decreases pieces.len(),
{
    if pieces.len() == 0 {
        None
    } else if text::contains_text(pieces[0], mark) {
        Some(pieces[0])
    } else {
        first_with(pieces.drop_first(), mark)
    }
}

/// The value in the output of a registry query: what follows the type on the first line that names it.
pub open spec fn registry_value(output: Seq<char>) -> Option<Seq<char>> {
    match first_with(text::split(output, '\n'), "REG_SZ"@) {
        Some(line) => {
            let value = text::trim(line.skip(text::find(line, "REG_SZ"@)->0 + 6));
            if value.len() > 0 {
                Some(value)
            } else {
                None
            }
        },
        None => None,
    }
}

fn first_line_with(lines: &Vec<String>, mark: &str) -> (r: Option<usize>)
    ensures
        match r {
            Some(i) => i < lines@.len() && first_with(text::views(lines@), mark@) == Some(
                lines@[i as int]@,
            ) && text::contains_text(lines@[i as int]@, mark@),
            None => first_with(text::views(lines@), mark@) is None,
        },
{
    let ghost lv = text::views(lines@);
    let mut i: usize = 0;
    assert(lv.skip(0) =~= lv);
    while i < lines.len()
        invariant
            i <= lines@.len(),
            lv == text::views(lines@),
            first_with(lv, mark@) == first_with(lv.skip(i as int), mark@),
        decreases lines@.len() - i,
    {
        assert(lv.skip(i as int)[0] == lines@[i as int]@);
        if text::has_text(lines[i].as_str(), mark) {
            return Some(i);
        }
        assert(lv.skip(i as int).drop_first() =~= lv.skip(i + 1));
        i = i + 1;
    }
    None
}

/// The version of the system from the output of a registry query, if there is any; `os` is what is
/// known without it.
pub fn os_version(output: Option<&[u8]>, os: &str) -> (r: String)
    ensures
        r@ == match output {
            Some(o) => match registry_value(text::utf8_text(o@)) {
                Some(v) => "Windows "@ + v,
                None => "Windows ("@ + os@ + ")"@,
            },
            None => "Windows ("@ + os@ + ")"@,
        },
{
    match output {
        Some(o) => {
            let all: String = text::lossy_string(o);
            let lines: Vec<String> = text::split_text(all.as_str(), '\n');
            match first_line_with(&lines, "REG_SZ") {
                Some(i) => {
                    let cs: Vec<char> = text::to_chars(lines[i].as_str());
                    let n: usize = cs.len();
                    let mark: Vec<char> = text::to_chars("REG_SZ");
                    proof {
                        reveal_strlit("REG_SZ");
                        text::lemma_find_from(cs@, mark@, 0);
                    }
                    match text::find_chars(cs.as_slice(), mark.as_slice(), 0) {
                        Some(at) => {
                            let rest: &[char] = vstd::slice::slice_subrange(
                                cs.as_slice(),
                                at + 6,
                                n,
                            );
                            assert(rest@ =~= cs@.skip(at + 6));
                            let raw: String = text::from_chars(rest);
                            let value: String = text::trim_text(raw.as_str());
                            proof {
                                reveal_strlit("");
                                if value@.len() == 0 {
                                    assert(value@ =~= ""@);
                                }
                            }
                            if !text::same(value.as_str(), "") {
                                let mut s: String = "Windows ".to_owned();
                                s.append(value.as_str());
                                return s;
                            }
                        },
                        None => {},
                    }
                },
                None => {},
            }
        },
        None => {},
    }
    let mut s: String = "Windows (".to_owned();
    s.append(os);
    s.append(")");
    s
}

// ---------------------------------------------------------------- firewall

/// Lets the two servers through.
pub const FIREWALL_ADD: &'static str =
    "add rule name=\"MiWiFiRepairTool\" dir=in action=allow protocol=UDP localport=67,69";

/// Takes the rule back.
pub const FIREWALL_DELETE: &'static str = "delete rule name=\"MiWiFiRepairTool\"";

/// The arguments with which `netsh` runs a firewall command.
pub fn firewall_arguments(args: &str) -> (r: Vec<String>)
    ensures
        text::views(r@) == seq!["advfirewall"@, "firewall"@] + nic::tokens(args@),
{
    let mut out: Vec<String> = Vec::new();
    out.push("advfirewall".to_owned());
    out.push("firewall".to_owned());
    let ghost head = seq!["advfirewall"@, "firewall"@];
    assert(text::views(out@) =~= head);
    let tokens: Vec<String> = nic::split_cmd_tokens(args);
    let ghost tv = text::views(tokens@);
    let mut i: usize = 0;
    assert(head + tv.take(0) =~= head);
    while i < tokens.len()
        invariant
            i <= tokens@.len(),
            tv == text::views(tokens@),
            text::views(out@) == head + tv.take(i as int),
        decreases tokens@.len() - i,
    {
        let ghost before = text::views(out@);
        let t: String = tokens[i].clone();
        let ghost one = t@;
        out.push(t);
        i = i + 1;
        proof {
            assert(text::views(out@) =~= before.push(one));
            assert(head + tv.take(i as int) =~= before.push(one));
        }
    }
    assert(tv.take(i as int) =~= tv);
    out
}

/// What came of a firewall command.
pub enum FirewallOutcome {
    /// `netsh` could not be started, with the reason.
    NotStarted(String),
    TimedOut,
    /// It ended, with what it printed.
    Ended { success: bool, stdout: Vec<u8>, stderr: Vec<u8> },
}

/// What the run of a firewall command means.
pub open spec fn firewall_answer(outcome: FirewallOutcome) -> Result<(), Seq<char>> {
    match outcome {
        FirewallOutcome::NotStarted(e) => Err("无法启动 netsh: "@ + e@),
        FirewallOutcome::TimedOut => Err("netsh 防火墙命令超时"@),
        FirewallOutcome::Ended { success, stdout, stderr } => if success {
            Ok(())
        } else {
            Err(
                "netsh 防火墙命令失败："@ + text::trim(text::utf8_text(stdout@)) + text::trim(
                    text::utf8_text(stderr@),
                ),
            )
        },
    }
}

/// What a firewall command says: nothing, or why it failed.
pub fn firewall_result(outcome: FirewallOutcome) -> (r: Result<(), String>)
    ensures
        match outcome {
            FirewallOutcome::NotStarted(e) => r matches Err(t) && t@ == "无法启动 netsh: "@ + e@,
            FirewallOutcome::TimedOut => r matches Err(t) && t@ == "netsh 防火墙命令超时"@,
            FirewallOutcome::Ended { success, stdout, stderr } => if success {
                r is Ok
            } else {
                r matches Err(t) && t@ == "netsh 防火墙命令失败："@ + text::trim(
                    text::utf8_text(stdout@),
                ) + text::trim(text::utf8_text(stderr@))
            },
        },
        nic::outcome_view(r) == firewall_answer(outcome),
{
    match outcome {
        FirewallOutcome::NotStarted(e) => {
            let mut s: String = "无法启动 netsh: ".to_owned();
            s.append(e.as_str());
            Err(s)
        },
        FirewallOutcome::TimedOut => Err("netsh 防火墙命令超时".to_owned()),
        FirewallOutcome::Ended { success, stdout, stderr } => {
            if success {
                return Ok(());
            }
            let out: String = text::lossy_string(stdout.as_slice());
            let out: String = text::trim_text(out.as_str());
            let err: String = text::lossy_string(stderr.as_slice());
            let err: String = text::trim_text(err.as_str());
            let mut s: String = "netsh 防火墙命令失败：".to_owned();
            s.append(out.as_str());
            s.append(err.as_str());
            Err(s)
        },
    }
}

// ---------------------------------------------------------------- the helper process

/// What came of a helper process with administrator rights.
pub enum HelperOutcome {
    /// The request was refused, with the reason.
    Refused(String),
    NoHandle,
    TimedOut,
    /// It ended with this exit code and left this message.
    Ended { code: u32, message: String },
}

/// What the end of the helper process means.
pub open spec fn helper_answer(outcome: HelperOutcome) -> Result<(), Seq<char>> {
    match outcome {
        HelperOutcome::Refused(e) => Err("提权请求失败（UAC 被取消？）："@ + e@),
        HelperOutcome::NoHandle => Err("提权进程句柄无效"@),
        HelperOutcome::TimedOut => Err("提权操作超时（60 秒）"@),
        HelperOutcome::Ended { code, message } => if code == 0 {
            Ok(())
        } else if text::trim(message@).len() == 0 {
            Err("提权操作失败（退出码 "@ + text::dec(code as nat) + "）"@)
        } else {
            Err(text::trim(message@))
        },
    }
}

/// What a helper process says: nothing, or why it failed.
pub fn helper_result(outcome: HelperOutcome) -> (r: Result<(), String>)
    ensures
        match outcome {
            HelperOutcome::Refused(e) => r matches Err(t) && t@
                == "提权请求失败（UAC 被取消？）："@ + e@,
            HelperOutcome::NoHandle => r matches Err(t) && t@ == "提权进程句柄无效"@,
            HelperOutcome::TimedOut => r matches Err(t) && t@ == "提权操作超时（60 秒）"@,
            HelperOutcome::Ended { code, message } => if code == 0 {
                r is Ok
            } else if text::trim(message@).len() == 0 {
                r matches Err(t) && t@ == "提权操作失败（退出码 "@ + text::dec(code as nat)
                    + "）"@
            } else {
                r matches Err(t) && t@ == text::trim(message@)
            },
        },
        nic::outcome_view(r) == helper_answer(outcome),
{
    match outcome {
        HelperOutcome::Refused(e) => {
            let mut s: String = "提权请求失败（UAC 被取消？）：".to_owned();
            s.append(e.as_str());
            Err(s)
        },
        HelperOutcome::NoHandle => Err("提权进程句柄无效".to_owned()),
        HelperOutcome::TimedOut => Err("提权操作超时（60 秒）".to_owned()),
        HelperOutcome::Ended { code, message } => {
            if code == 0 {
                return Ok(());
            }
            let m: String = text::trim_text(message.as_str());
            proof {
                reveal_strlit("");
                if m@.len() == 0 {
                    assert(m@ =~= ""@);
                }
            }
            if text::same(m.as_str(), "") {
                let mut s: String = "提权操作失败（退出码 ".to_owned();
                text::push_dec(&mut s, code as u64);
                s.append("）");
                Err(s)
            } else {
                Err(m)
            }
        },
    }
}

// ---------------------------------------------------------------- laws

/// The helper process has done its work exactly where it ended with code 0. Where it left a message, that
/// is the reason of its failure.
pub proof fn lemma_helper_answer(outcome: HelperOutcome)
    ensures
        helper_answer(outcome) is Ok <==> (outcome matches HelperOutcome::Ended { code, message }
            && code == 0),
        outcome matches HelperOutcome::Ended { code, message } && code != 0 && text::trim(
            message@,
        ).len() > 0 ==> helper_answer(outcome) == Err::<(), Seq<char>>(
            text::trim(outcome->Ended_message@),
        ),
{
}

/// A firewall command has gone well exactly where it was started, ended in time and ended well.
pub proof fn lemma_firewall_answer(outcome: FirewallOutcome)
    ensures
        firewall_answer(outcome) is Ok <==> (outcome matches FirewallOutcome::Ended {
            success,
            stdout,
            stderr,
        } && success),
{
}

/// The rule that is added lets UDP in on the ports 67 and 69, under the name under which it is taken back.
pub proof fn lemma_firewall_rule()
    ensures
        nic::tokens(FIREWALL_ADD@) == seq![
            "add"@,
            "rule"@,
            "name=MiWiFiRepairTool"@,
            "dir=in"@,
            "action=allow"@,
            "protocol=UDP"@,
            "localport=67,69"@,
        ],
        nic::tokens(FIREWALL_DELETE@) == seq!["delete"@, "rule"@, "name=MiWiFiRepairTool"@],
{
    reveal_strlit("add rule name=\"MiWiFiRepairTool\" dir=in action=allow protocol=UDP localport=67,69");
    reveal_strlit("delete rule name=\"MiWiFiRepairTool\"");
    reveal_strlit("add");
    reveal_strlit("delete");
    reveal_strlit("rule");
    reveal_strlit("MiWiFiRepairTool");
    reveal_strlit("name=\"");
    reveal_strlit("\"");
    reveal_strlit("name=");
    reveal_strlit("name=MiWiFiRepairTool");
    reveal_strlit("dir=in");
    reveal_strlit("action=allow");
    reveal_strlit("protocol=UDP");
    reveal_strlit("localport=67,69");
    let sp = seq![' '];
    let n = nic::name_argument("MiWiFiRepairTool"@);
    nic::lemma_name_argument("MiWiFiRepairTool"@);
    assert("name="@ + "MiWiFiRepairTool"@ =~= "name=MiWiFiRepairTool"@);
    nic::lemma_word("add"@);
    nic::lemma_word("delete"@);
    nic::lemma_word("rule"@);
    nic::lemma_word("dir=in"@);
    nic::lemma_word("action=allow"@);
    nic::lemma_word("protocol=UDP"@);
    nic::lemma_word("localport=67,69"@);
    let t1 = "protocol=UDP"@ + sp + "localport=67,69"@;
    nic::lemma_tokens_split("protocol=UDP"@, "localport=67,69"@);
    let t2 = "action=allow"@ + sp + t1;
    nic::lemma_tokens_split("action=allow"@, t1);
    let t3 = "dir=in"@ + sp + t2;
    nic::lemma_tokens_split("dir=in"@, t2);
    let t4 = n + sp + t3;
    nic::lemma_tokens_split(n, t3);
    let t5 = "rule"@ + sp + t4;
    nic::lemma_tokens_split("rule"@, t4);
    let t6 = "add"@ + sp + t5;
    nic::lemma_tokens_split("add"@, t5);
    assert(FIREWALL_ADD@ =~= t6);
    assert(nic::tokens(t6) =~= seq![
        "add"@,
        "rule"@,
        "name=MiWiFiRepairTool"@,
        "dir=in"@,
        "action=allow"@,
        "protocol=UDP"@,
        "localport=67,69"@,
    ]);
    let d1 = "rule"@ + sp + n;
    nic::lemma_tokens_split("rule"@, n);
    let d2 = "delete"@ + sp + d1;
    nic::lemma_tokens_split("delete"@, d1);
    assert(FIREWALL_DELETE@ =~= d2);
    assert(nic::tokens(d2) =~= seq!["delete"@, "rule"@, "name=MiWiFiRepairTool"@]);
}

/// The version of the system is what stands behind the mark of the first line that holds it, without the
/// white space round it; where nothing stands there, it is not known.
pub proof fn lemma_registry_value(before: Seq<char>, head: Seq<char>, value: Seq<char>, behind: Seq<char>)
    requires
        !text::contains_text(before, "REG_SZ"@),
        !before.contains('\n'),
        !head.contains('\n') && !head.contains('R'),
        !value.contains('\n'),
    ensures
        ({
            let r = registry_value(
                before + seq!['\n'] + (head + "REG_SZ"@ + value + seq!['\n'] + behind),
            );
            &&& text::trim(value).len() > 0 ==> r == Some(text::trim(value))
            &&& text::trim(value).len() == 0 ==> r is None
        }),
{
    reveal_strlit("REG_SZ");
    let mark = "REG_SZ"@;
    let line = head + mark + value;
    let n = head.len() as int;
    assert(!line.contains('\n')) by {
        assert forall|i: int| 0 <= i < line.len() implies line[i] != '\n' by {
            if i < n {
                assert(line[i] == head[i]);
            } else if i < n + 6 {
                assert(line[i] == mark[i - n]);
            } else {
                assert(line[i] == value[i - n - 6]);
            }
        }
    }
    let whole = before + seq!['\n'] + (line + seq!['\n'] + behind);
    assert(head + mark + value + seq!['\n'] + behind =~= line + seq!['\n'] + behind);
    text::lemma_split_head(before, '\n', line + seq!['\n'] + behind);
    text::lemma_split_head(line, '\n', behind);
    let pieces = text::split(whole, '\n');
    let rest = text::split(behind, '\n');
    assert(pieces =~= seq![before, line] + rest);
    assert(pieces.drop_first() =~= seq![line] + rest);
    assert(line.subrange(n, n + 6) =~= mark);
    assert(text::stands_at(line, mark, n));
    assert forall|j: int| 0 <= j < n implies !text::stands_at(line, mark, j) by {
        assert(head[j] != 'R');
        if text::stands_at(line, mark, j) {
            assert(line.subrange(j, j + 6)[0] == line[j]);
        }
    }
    text_laws::lemma_found(line, mark, n);
    assert(first_with(pieces, mark) == first_with(pieces.drop_first(), mark));
    assert(first_with(pieces.drop_first(), mark) == Some(line));
    assert(line.skip(n + 6) =~= value);
}

/// One line is enough, and without the mark there is no version.
pub proof fn lemma_registry_line(head: Seq<char>, value: Seq<char>, other: Seq<char>)
    requires
        !head.contains('\n') && !head.contains('R'),
        !value.contains('\n'),
        !other.contains('\n') && !text::contains_text(other, "REG_SZ"@),
    ensures
        text::trim(value).len() > 0 ==> registry_value(head + "REG_SZ"@ + value) == Some(
            text::trim(value),
        ),
        text::trim(value).len() == 0 ==> registry_value(head + "REG_SZ"@ + value) is None,
        registry_value(other) is None,
{
    reveal_strlit("REG_SZ");
    reveal_with_fuel(first_with, 2);
    let mark = "REG_SZ"@;
    let line = head + mark + value;
    let n = head.len() as int;
    assert(!line.contains('\n')) by {
        assert forall|i: int| 0 <= i < line.len() implies line[i] != '\n' by {
            if i < n {
                assert(line[i] == head[i]);
            } else if i < n + 6 {
                assert(line[i] == mark[i - n]);
            } else {
                assert(line[i] == value[i - n - 6]);
            }
        }
    }
    text::lemma_split_whole(line, '\n');
    text::lemma_split_whole(other, '\n');
    assert(line.subrange(n, n + 6) =~= mark);
    assert(text::stands_at(line, mark, n));
    assert forall|j: int| 0 <= j < n implies !text::stands_at(line, mark, j) by {
        assert(head[j] != 'R');
        if text::stands_at(line, mark, j) {
            assert(line.subrange(j, j + 6)[0] == line[j]);
        }
    }
    text_laws::lemma_found(line, mark, n);
    assert(line.skip(n + 6) =~= value);
}

} // verus!
