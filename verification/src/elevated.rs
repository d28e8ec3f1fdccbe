//! The command line, and the helper process that runs with administrator rights.
//!
//! The program stays in its console and starts itself once more, with administrator rights and without
//! a window, for the two things that need them: setting up the adapter and putting it back.

use vstd::prelude::*;
use vstd::string::*;

use crate::net;
use crate::nic;
use crate::nic::{NetshStep, NicInfo, NicV};
use crate::text;

verus! {

// ---------------------------------------------------------------- arguments

/// Position of the first argument that is `flag`.
pub open spec fn position_of(args: Seq<Seq<char>>, flag: Seq<char>) -> Option<int>
    decreases args.len(),
{
    if args.len() == 0 {
        None
    } else {
        match position_of(args.drop_last(), flag) {
            Some(i) => Some(i),
            None => if args.last() == flag {
                Some(args.len() - 1)
            } else {
                None
            },
        }
    }
}

/// The argument behind the first `flag`.
pub open spec fn value_of(args: Seq<Seq<char>>, flag: Seq<char>) -> Option<Seq<char>> {
    match position_of(args, flag) {
        Some(i) => if i + 1 < args.len() {
            Some(args[i + 1])
        } else {
            None
        },
        None => None,
    }
}

/// The position of a flag is that of its first occurrence.
pub proof fn lemma_position(args: Seq<Seq<char>>, flag: Seq<char>)
    ensures
        match position_of(args, flag) {
            Some(i) => 0 <= i < args.len() && args[i] == flag && forall|j: int|
                0 <= j < i ==> #[trigger] args[j] != flag,
            None => forall|j: int| 0 <= j < args.len() ==> #[trigger] args[j] != flag,
        },
    decreases args.len(),
{
    if args.len() > 0 {
        let init = args.drop_last();
        lemma_position(init, flag);
        match position_of(init, flag) {
            Some(i) => {
                assert(args[i] == init[i]);
                assert forall|j: int| 0 <= j < i implies #[trigger] args[j] != flag by {
                    assert(init[j] == args[j]);
                }
            },
            None => {
                assert forall|j: int| 0 <= j < init.len() implies #[trigger] args[j] != flag by {
                    assert(init[j] == args[j]);
                }
            },
        }
    }
}

fn find_argument(args: &Vec<String>, flag: &str) -> (r: Option<usize>)
    ensures
        match r {
            Some(i) => position_of(text::views(args@), flag@) == Some(i as int) && i < args@.len(),
            None => position_of(text::views(args@), flag@) is None,
        },
{
    let ghost av = text::views(args@);
    let mut i: usize = 0;
    proof {
        lemma_position(av, flag@);
    }
    while i < args.len()
        invariant
            i <= args@.len(),
            av == text::views(args@),
            forall|j: int| 0 <= j < i ==> #[trigger] av[j] != flag@,
            match position_of(av, flag@) {
                Some(k) => 0 <= k < av.len() && av[k] == flag@ && forall|j: int|
                    0 <= j < k ==> #[trigger] av[j] != flag@,
                None => forall|j: int| 0 <= j < av.len() ==> #[trigger] av[j] != flag@,
            },
        decreases args@.len() - i,
    {
        assert(av[i as int] == args@[i as int]@);
        if text::same(args[i].as_str(), flag) {
            return Some(i);
        }
        i = i + 1;
    }
    None
}

/// The argument behind the first `flag`.
pub fn arg_value(args: &Vec<String>, flag: &str) -> (r: Option<String>)
    ensures
        match r {
            Some(s) => value_of(text::views(args@), flag@) == Some(s@),
            None => value_of(text::views(args@), flag@) is None,
        },
{
    match find_argument(args, flag) {
        Some(i) => {
            if args.len() - i > 1 {
                assert(text::views(args@)[i + 1] == args@[i + 1]@);
                Some(args[i + 1].clone())
            } else {
                None
            }
        },
        None => None,
    }
}

/// Whether `flag` is among the arguments.
pub fn has_flag(args: &Vec<String>, flag: &str) -> (r: bool)
    ensures
        r == (position_of(text::views(args@), flag@) is Some),
{
    find_argument(args, flag).is_some()
}

/// What the program is started for.
pub enum Startup {
    /// One operation with administrator rights.
    Elevated(String),
    /// The flags of such an operation without what belongs to them.
    BadArguments,
    SelfTest,
    Menu,
}

/// How the program starts with these arguments.
pub open spec fn starts(args: Seq<Seq<char>>, r: Startup) -> bool {
    match r {
        Startup::Elevated(op) => value_of(args, "--elevated-op"@) == Some(op@),
        Startup::BadArguments => value_of(args, "--elevated-op"@) is None && (position_of(
            args,
            "--elevated-op"@,
        ) is Some || position_of(args, "--result"@) is Some),
        Startup::SelfTest => position_of(args, "--elevated-op"@) is None && position_of(
            args,
            "--result"@,
        ) is None && position_of(args, "--selftest"@) is Some,
        Startup::Menu => position_of(args, "--elevated-op"@) is None && position_of(
            args,
            "--result"@,
        ) is None && position_of(args, "--selftest"@) is None,
    }
}

/// Decides by its arguments what the program is started for.
pub fn startup(args: &Vec<String>) -> (r: Startup)
    ensures
        ({
            let av = text::views(args@);
            match value_of(av, "--elevated-op"@) {
                Some(op) => r matches Startup::Elevated(s) && s@ == op,
                None => if position_of(av, "--elevated-op"@) is Some || position_of(
                    av,
                    "--result"@,
                ) is Some {
                    r is BadArguments
                } else if position_of(av, "--selftest"@) is Some {
                    r is SelfTest
                } else {
                    r is Menu
                },
            }
        }),
        starts(text::views(args@), r),
{
    match arg_value(args, "--elevated-op") {
        Some(op) => Startup::Elevated(op),
        None => if has_flag(args, "--elevated-op") || has_flag(args, "--result") {
            Startup::BadArguments
        } else if has_flag(args, "--selftest") {
            Startup::SelfTest
        } else {
            Startup::Menu
        },
    }
}

// ---------------------------------------------------------------- inside the helper process

/// The pieces of a list of name servers that are not empty, without blanks round them.
pub open spec fn dns_list(pieces: Seq<Seq<char>>) -> Seq<Seq<char>>
    decreases pieces.len(),
{
    if pieces.len() == 0 {
        Seq::empty()
    } else {
        let before = dns_list(pieces.drop_last());
        let one = text::trim(pieces.last());
        if one.len() > 0 {
            before.push(one)
        } else {
            before
        }
    }
}

/// The name servers in the arguments.
pub open spec fn dns_in(args: Seq<Seq<char>>) -> Seq<Seq<char>> {
    match value_of(args, "--dns"@) {
        Some(s) => dns_list(text::split(s, ',')),
        None => Seq::empty(),
    }
}

fn read_dns(args: &Vec<String>) -> (r: Vec<String>)
    ensures
        text::views(r@) == dns_in(text::views(args@)),
{
    let mut out: Vec<String> = Vec::new();
    assert(text::views(out@) =~= Seq::<Seq<char>>::empty());
    match arg_value(args, "--dns") {
        Some(s) => {
            let parts: Vec<String> = text::split_text(s.as_str(), ',');
            let ghost pv = text::views(parts@);
            let mut i: usize = 0;
            assert(dns_list(pv.take(0)) =~= Seq::<Seq<char>>::empty());
            while i < parts.len()
                invariant
                    i <= parts@.len(),
                    pv == text::views(parts@),
                    text::views(out@) == dns_list(pv.take(i as int)),
                decreases parts@.len() - i,
            {
                let ghost before = text::views(out@);
                let one: String = text::trim_text(parts[i].as_str());
                let ghost ov = one@;
                proof {
                    reveal_strlit("");
                    if ov.len() == 0 {
                        assert(ov =~= ""@);
                    }
                    assert(pv.take(i + 1).drop_last() =~= pv.take(i as int));
                    assert(pv.take(i + 1).last() == parts@[i as int]@);
                }
                if !text::same(one.as_str(), "") {
                    out.push(one);
                    assert(text::views(out@) =~= before.push(ov));
                }
                i = i + 1;
            }
            assert(pv.take(i as int) =~= pv);
        },
        None => {},
    }
    out
}

/// What a helper process is to do.
pub enum HelperPlan {
    /// There is no file for the result.
    NoResultFile,
    Fail(String),
    /// Set the adapter with this name up.
    SetUp(String),
    /// Run these commands, then take the firewall rule back.
    Restore(Vec<NetshStep>),
}

/// What the plan of a helper process says.
pub enum HelperPlanV {
    NoResultFile,
    Fail(Seq<char>),
    SetUp(Seq<char>),
    Restore(Seq<nic::NetshV>),
}

impl View for HelperPlan {
    type V = HelperPlanV;

    open spec fn view(&self) -> HelperPlanV {
        match *self {
            HelperPlan::NoResultFile => HelperPlanV::NoResultFile,
            HelperPlan::Fail(e) => HelperPlanV::Fail(e@),
            HelperPlan::SetUp(n) => HelperPlanV::SetUp(n@),
            HelperPlan::Restore(s) => HelperPlanV::Restore(nic::step_views(s@)),
        }
    }
}

/// What a helper process with the operation `op` and these arguments is to do.
pub open spec fn plan_of(op: Seq<char>, args: Seq<Seq<char>>) -> HelperPlanV {
    if value_of(args, "--result"@) is None {
        HelperPlanV::NoResultFile
    } else {
        match value_of(args, "--nic"@) {
            None => HelperPlanV::Fail("缺少 --nic 参数"@),
            Some(name) => if op == "set"@ {
                HelperPlanV::SetUp(name)
            } else if op == "restore"@ {
                match nic::restore_steps(
                    name,
                    position_of(args, "--dhcp"@) is Some,
                    value_of(args, "--ip"@),
                    value_of(args, "--mask"@),
                    value_of(args, "--gateway"@),
                    dns_in(args),
                ) {
                    Some(steps) => HelperPlanV::Restore(steps),
                    None => HelperPlanV::Fail("恢复参数不完整：缺少掩码（--mask）"@),
                }
            } else {
                HelperPlanV::Fail("未知提权操作："@ + op)
            },
        }
    }
}

fn borrow_text(s: &Option<String>) -> (r: Option<&str>)
    ensures
        match *s {
            Some(s) => r matches Some(t) && t@ == s@,
            None => r is None,
        },
{
    match s {
        Some(s) => Some(s.as_str()),
        None => None,
    }
}

/// Plans what a helper process does.
pub fn plan_helper(op: &str, args: &Vec<String>) -> (r: HelperPlan)
    ensures
        r@ == plan_of(op@, text::views(args@)),
{
    if arg_value(args, "--result").is_none() {
        return HelperPlan::NoResultFile;
    }
    let name: String = match arg_value(args, "--nic") {
        Some(n) => n,
        None => {
            return HelperPlan::Fail("缺少 --nic 参数".to_owned());
        },
    };
    if text::same(op, "set") {
        return HelperPlan::SetUp(name);
    }
    if text::same(op, "restore") {
        let is_dhcp: bool = has_flag(args, "--dhcp");
        let ip: Option<String> = arg_value(args, "--ip");
        let mask: Option<String> = arg_value(args, "--mask");
        let gateway: Option<String> = arg_value(args, "--gateway");
        let dns: Vec<String> = read_dns(args);
        return match nic::restore_parts(
            name.as_str(),
            is_dhcp,
            borrow_text(&ip),
            borrow_text(&mask),
            borrow_text(&gateway),
            &dns,
        ) {
            Ok(steps) => HelperPlan::Restore(steps),
            Err(e) => HelperPlan::Fail(e),
        };
    }
    let mut s: String = "未知提权操作：".to_owned();
    s.append(op);
    HelperPlan::Fail(s)
}

/// Number of the first adapter with this name.
pub open spec fn nic_named(nics: Seq<NicV>, name: Seq<char>) -> Option<int>
    decreases nics.len(),
{
    if nics.len() == 0 {
        None
    } else {
        match nic_named(nics.drop_last(), name) {
            Some(i) => Some(i),
            None => if nics.last().name == name {
                Some(nics.len() - 1)
            } else {
                None
            },
        }
    }
}

/// The number of an adapter is that of the first with its name.
pub proof fn lemma_nic_named(nics: Seq<NicV>, name: Seq<char>)
    ensures
        match nic_named(nics, name) {
            Some(i) => 0 <= i < nics.len() && nics[i].name == name,
            None => forall|j: int| 0 <= j < nics.len() ==> (#[trigger] nics[j]).name != name,
        },
    decreases nics.len(),
{
    if nics.len() > 0 {
        let init = nics.drop_last();
        lemma_nic_named(init, name);
        if nic_named(nics, name) is None {
            assert forall|j: int| 0 <= j < nics.len() implies (#[trigger] nics[j]).name != name by {
                if j < init.len() {
                    assert(init[j] == nics[j]);
                }
            }
        }
    }
}

/// Number of the first adapter with this name.
pub fn find_nic(nics: &Vec<NicInfo>, name: &str) -> (r: Option<usize>)
    ensures
        match r {
            Some(i) => nic_named(nic::nic_views(nics@), name@) == Some(i as int) && i < nics@.len()
                && nics@[i as int]@.name == name@,
            None => nic_named(nic::nic_views(nics@), name@) is None,
        },
{
    let ghost nv = nic::nic_views(nics@);
    let mut found: Option<usize> = None;
    let mut i: usize = 0;
    while i < nics.len()
        invariant
            i <= nics@.len(),
            nv == nic::nic_views(nics@),
            match found {
                Some(k) => nic_named(nv.take(i as int), name@) == Some(k as int) && k < i
                    && nics@[k as int]@.name == name@,
                None => nic_named(nv.take(i as int), name@) is None,
            },
        decreases nics@.len() - i,
    {
        proof {
            assert(nv.take(i + 1).drop_last() =~= nv.take(i as int));
            assert(nv.take(i + 1).last() == nics@[i as int]@);
        }
        if found.is_none() && text::same(nics[i].name.as_str(), name) {
            found = Some(i);
        }
        i = i + 1;
    }
    assert(nv.take(i as int) =~= nv);
    found
}

/// The adapter as it was before it is set up, so that it can be put back.
pub fn snapshot_for(nics: &Vec<NicInfo>, name: &str) -> (r: Result<NicInfo, String>)
    ensures
        match nic_named(nic::nic_views(nics@), name@) {
            Some(i) => r matches Ok(n) && n@ == nic::nic_views(nics@)[i],
            None => r matches Err(e) && e@ == "网卡不存在："@ + name@,
        },
{
    match find_nic(nics, name) {
        Some(i) => Ok(nics[i].copy()),
        None => {
            let mut s: String = "网卡不存在：".to_owned();
            s.append(name);
            Err(s)
        },
    }
}

/// What follows a failure to set the adapter up: the commands that put it back, and what is reported.
pub fn roll_back(snapshot: &NicInfo, error: &str) -> (r: (Vec<NetshStep>, String))
    ensures
        nic::step_views(r.0@) == match nic::restore_steps_of(snapshot@) {
            Some(v) => v,
            None => Seq::<nic::NetshV>::empty(),
        },
        r.1@ == "设置网卡/防火墙失败（已尝试恢复原配置）："@ + error@,
{
    let mut s: String = "设置网卡/防火墙失败（已尝试恢复原配置）：".to_owned();
    s.append(error);
    let steps: Vec<NetshStep> = match nic::restore(snapshot) {
        Ok(v) => v,
        Err(_) => {
            let none: Vec<NetshStep> = Vec::new();
            assert(nic::step_views(none@) =~= Seq::<nic::NetshV>::empty());
            none
        },
    };
    (steps, s)
}

/// The exit code of a helper process and what it writes into the result file.
pub fn helper_report(result: &Result<(), String>) -> (r: (i32, String))
    ensures
        match *result {
            Ok(_) => r.0 == 0 && r.1@ == "OK"@,
            Err(e) => r.0 == 1 && r.1@ == e@,
        },
{
    match result {
        Ok(_) => (0, "OK".to_owned()),
        Err(e) => (1, e.clone()),
    }
}

// ---------------------------------------------------------------- starting the helper process

/// A flag with a quoted value.
pub open spec fn quoted_value(flag: Seq<char>, value: Seq<char>) -> Seq<char> {
    flag + " \""@ + value + "\""@
}

/// A flag with a plain value.
pub open spec fn plain_value(flag: Seq<char>, value: Seq<char>) -> Seq<char> {
    flag + " "@ + value
}

/// The part of the arguments that gives an optional address.
pub open spec fn address_args(flag: Seq<char>, ip: Option<u32>) -> Seq<Seq<char>> {
    match ip {
        Some(v) => seq![plain_value(flag, net::ip_text(v))],
        None => Seq::empty(),
    }
}

/// The arguments with which a helper process puts an adapter back.
pub open spec fn restore_args_of(n: NicV) -> Seq<Seq<char>> {
    let name = seq![quoted_value("--nic"@, n.name)];
    if n.is_dhcp {
        name.push("--dhcp"@)
    } else {
        name + address_args("--ip"@, n.ipv4) + address_args("--mask"@, n.ipv4_mask)
            + address_args("--gateway"@, n.gateway) + if n.dns.len() > 0 {
            seq![plain_value("--dns"@, text::join(nic::ip_texts(n.dns), ","@))]
        } else {
            Seq::empty()
        }
    }
}

fn name_arg(name: &str) -> (r: String)
    ensures
        r@ == quoted_value("--nic"@, name@),
{
    let mut s: String = "--nic".to_owned();
    s.append(" \"");
    s.append(name);
    s.append("\"");
    s
}

/// The arguments with which a helper process sets an adapter up.
pub fn set_args(name: &str) -> (r: Vec<String>)
    ensures
        text::views(r@) == seq![quoted_value("--nic"@, name@)],
{
    let mut out: Vec<String> = Vec::new();
    out.push(name_arg(name));
    assert(text::views(out@) =~= seq![quoted_value("--nic"@, name@)]);
    out
}

fn push_address(out: &mut Vec<String>, flag: &str, ip: Option<u32>)
    ensures
        text::views(final(out)@) == text::views(old(out)@) + address_args(flag@, ip),
{
    let ghost before = text::views(out@);
    match ip {
        Some(v) => {
            let mut s: String = flag.to_owned();
            s.append(" ");
            let addr: String = net::ip_string(v);
            s.append(addr.as_str());
            let ghost sv = s@;
            out.push(s);
            assert(text::views(out@) =~= before + seq![sv]);
        },
        None => {
            assert(before + Seq::<Seq<char>>::empty() =~= before);
        },
    }
}

/// The arguments with which a helper process puts an adapter back.
pub fn restore_args(n: &NicInfo) -> (r: Vec<String>)
    ensures
        text::views(r@) == restore_args_of(n@),
{
    let mut out: Vec<String> = set_args(n.name.as_str());
    let ghost name = text::views(out@);
    if n.is_dhcp {
        out.push("--dhcp".to_owned());
        assert(text::views(out@) =~= name.push("--dhcp"@));
        return out;
    }
    push_address(&mut out, "--ip", n.ipv4);
    push_address(&mut out, "--mask", n.ipv4_mask);
    push_address(&mut out, "--gateway", n.gateway);
    let ghost before = text::views(out@);
    if n.dns.len() > 0 {
        let list: Vec<String> = nic::ip_strings(&n.dns);
        let joined: String = text::join_text(list.as_slice(), ",");
        let mut s: String = "--dns".to_owned();
        s.append(" ");
        s.append(joined.as_str());
        let ghost sv = s@;
        out.push(s);
        assert(text::views(out@) =~= before + seq![sv]);
    } else {
        assert(before + Seq::<Seq<char>>::empty() =~= before);
    }
    out
}

/// Arguments one after the other, each behind a blank.
pub open spec fn spaced(args: Seq<Seq<char>>) -> Seq<char>
    decreases args.len(),
{
    if args.len() == 0 {
        Seq::empty()
    } else {
        spaced(args.drop_last()) + " "@ + args.last()
    }
}

/// The command line of a helper process.
pub open spec fn params_of(
    op: Seq<char>,
    args: Seq<Seq<char>>,
    result_file: Seq<char>,
) -> Seq<char> {
    "--elevated-op "@ + op + spaced(args) + " --result \""@ + result_file + "\""@
}

/// The command line of a helper process.
pub fn helper_params(op: &str, args: &Vec<String>, result_file: &str) -> (r: String)
    ensures
        r@ == params_of(op@, text::views(args@), result_file@),
{
    let mut s: String = "--elevated-op ".to_owned();
    s.append(op);
    let ghost head = s@;
    let ghost av = text::views(args@);
    let mut i: usize = 0;
    assert(head + spaced(av.take(0)) =~= head);
    while i < args.len()
        invariant
            i <= args@.len(),
            av == text::views(args@),
            s@ == head + spaced(av.take(i as int)),
        decreases args@.len() - i,
    {
        s.append(" ");
        s.append(args[i].as_str());
        proof {
            assert(av.take(i + 1).drop_last() =~= av.take(i as int));
            assert(av.take(i + 1).last() == args@[i as int]@);
            assert(s@ =~= head + spaced(av.take(i + 1)));
        }
        i = i + 1;
    }
    assert(av.take(i as int) =~= av);
    s.append(" --result \"");
    s.append(result_file);
    s.append("\"");
    s
}

/// The name of a result file, different for every helper process that a program starts.
pub fn result_file_name(process: u32, counter: u64) -> (r: String)
    ensures
        r@ == "miwifi_elev_"@ + text::dec(process as nat) + "_"@ + text::dec(counter as nat)
            + ".txt"@,
{
    let mut s: String = "miwifi_elev_".to_owned();
    text::push_dec(&mut s, process as u64);
    s.append("_");
    text::push_dec(&mut s, counter);
    s.append(".txt");
    s
}

} // verus!
