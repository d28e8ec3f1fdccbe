//! What is read of network adapters, and what puts one back.

use vstd::prelude::*;

use crate::bytes;
use crate::net;
use crate::nic;
use crate::nic::{NetshV, NicV, RawAdapter, RawAddress, RawUnicast};
use crate::status_laws;
use crate::text;
use crate::wide;

verus! {

// ---------------------------------------------------------------- addresses

/// The octets of an address, the highest first, are those of the number that the system gives for it, the
/// lowest first. Only an entry of the IPv4 family is an address.
pub proof fn lemma_address_octets(a: RawAddress)
    ensures
        a.family != 2 ==> nic::ipv4_of(Some(a)) is None,
        nic::ipv4_of(None) is None,
        a.family == 2 ==> (nic::ipv4_of(Some(a)) matches Some(ip) && {
            &&& ip / 0x100_0000 == a.s_addr % 0x100
            &&& ip / 0x1_0000 % 0x100 == a.s_addr / 0x100 % 0x100
            &&& ip / 0x100 % 0x100 == a.s_addr / 0x1_0000 % 0x100
            &&& ip % 0x100 == a.s_addr / 0x100_0000
        }),
{
    let v = a.s_addr;
    let p = (v % 0x100) as int;
    let q = (v / 0x100 % 0x100) as int;
    let r = (v / 0x1_0000 % 0x100) as int;
    let t = (v / 0x100_0000) as int;
    bytes::lemma_four(p, q, r, t);
}

/// Every name server of the IPv4 family is listed, in order, and no other: the list of two lists one
/// behind the other is the list of the first and then that of the second, and a single entry lists its
/// address or nothing.
pub proof fn lemma_name_servers(
    a: Seq<Option<RawAddress>>,
    b: Seq<Option<RawAddress>>,
    one: Option<RawAddress>,
)
    ensures
        nic::ipv4s(a + b) == nic::ipv4s(a) + nic::ipv4s(b),
        nic::ipv4s(seq![one]) == (if one matches Some(x) && x.family == 2 {
            seq![nic::ipv4_of(one)->0]
        } else {
            Seq::empty()
        }),
        nic::ipv4s(Seq::empty()) == Seq::<u32>::empty(),
    decreases b.len(),
{
    let single = seq![one];
    assert(single.drop_last() =~= Seq::<Option<RawAddress>>::empty());
    assert(nic::ipv4s(single.drop_last()) == Seq::<u32>::empty());
    assert(nic::ipv4s(single) =~= if one matches Some(x) && x.family == 2 {
        seq![nic::ipv4_of(one)->0]
    } else {
        Seq::empty()
    });
    if b.len() == 0 {
        assert(a + b =~= a);
        assert(nic::ipv4s(a) + nic::ipv4s(b) =~= nic::ipv4s(a));
    } else {
        let init = b.drop_last();
        lemma_name_servers(a, init, one);
        assert((a + b).drop_last() =~= a + init);
        assert((a + b).last() == b.last());
        assert(nic::ipv4s(a + b) =~= nic::ipv4s(a) + nic::ipv4s(b));
    }
}

/// The gateway is the first entry of the IPv4 family; without one there is none.
pub proof fn lemma_gateway(v: Seq<Option<RawAddress>>, k: int)
    requires
        0 <= k <= v.len(),
        forall|j: int| 0 <= j < k ==> nic::ipv4_of(#[trigger] v[j]) is None,
    ensures
        k < v.len() && nic::ipv4_of(v[k]) is Some ==> nic::first_of(v) == nic::ipv4_of(v[k]),
        k == v.len() ==> nic::first_of(v) is None,
    decreases k,
{
    if k > 0 {
        let rest = v.drop_first();
        assert(nic::ipv4_of(v[0]) is None);
        assert forall|j: int| 0 <= j < k - 1 implies nic::ipv4_of(#[trigger] rest[j]) is None by {
            assert(rest[j] == v[j + 1]);
        }
        lemma_gateway(rest, k - 1);
        assert(k < v.len() ==> rest[k - 1] == v[k]);
    }
}

/// The address and the prefix are those of the first entry of the IPv4 family; without one there are none.
pub proof fn lemma_first_address(v: Seq<RawUnicast>, k: int)
    requires
        0 <= k <= v.len(),
        forall|j: int| 0 <= j < k ==> nic::ipv4_of((#[trigger] v[j]).address) is None,
    ensures
        k < v.len() && nic::ipv4_of(v[k].address) is Some ==> nic::first_unicast(v) == Some(
            (nic::ipv4_of(v[k].address)->0, v[k].prefix_len),
        ),
        k == v.len() ==> nic::first_unicast(v) is None,
    decreases k,
{
    if k > 0 {
        let rest = v.drop_first();
        assert(nic::ipv4_of(v[0].address) is None);
        assert forall|j: int| 0 <= j < k - 1 implies nic::ipv4_of(
            (#[trigger] rest[j]).address,
        ) is None by {
            assert(rest[j] == v[j + 1]);
        }
        lemma_first_address(rest, k - 1);
        assert(k < v.len() ==> rest[k - 1] == v[k]);
    }
}

// ---------------------------------------------------------------- adapters

/// Every adapter but a loopback is listed, in order: the list of two lists one behind the other is the
/// list of the first and then that of the second, and a single adapter lists itself or nothing.
pub proof fn lemma_adapters_listed(a: Seq<RawAdapter>, b: Seq<RawAdapter>, one: RawAdapter)
    ensures
        nic::nics_of(a + b) == nic::nics_of(a) + nic::nics_of(b),
        one.if_type == 24 ==> nic::nics_of(seq![one]) == Seq::<NicV>::empty(),
        one.if_type != 24 ==> nic::nics_of(seq![one]).len() == 1,
    decreases b.len(),
{
    let single = seq![one];
    assert(single.drop_last() =~= Seq::<RawAdapter>::empty());
    assert(nic::nics_of(single.drop_last()) == Seq::<NicV>::empty());
    if b.len() == 0 {
        assert(a + b =~= a);
        assert(nic::nics_of(a) + nic::nics_of(b) =~= nic::nics_of(a));
    } else {
        let init = b.drop_last();
        lemma_adapters_listed(a, init, one);
        assert((a + b).drop_last() =~= a + init);
        assert((a + b).last() == b.last());
        assert(nic::nics_of(a + b) =~= nic::nics_of(a) + nic::nics_of(b));
    }
}

/// What is listed of an adapter is what the system says of it.
pub proof fn lemma_adapter_fields(one: RawAdapter)
    requires
        one.if_type != 24,
    ensures
        ({
            let n = nic::nics_of(seq![one])[0];
            &&& n.name == wide::utf16_text(wide::before_zero(one.friendly_name@))
            &&& n.description == wide::utf16_text(wide::before_zero(one.description@))
            &&& n.up == (one.oper_status == 1)
            &&& n.is_dhcp == ((one.flags >> 2) & 1 == 1)
            &&& n.link_speed >= one.transmit_speed && n.link_speed >= one.receive_speed
            &&& n.link_speed == one.transmit_speed || n.link_speed == one.receive_speed
            &&& n.gateway == nic::first_of(one.gateways@)
            &&& n.dns == nic::ipv4s(one.dns@)
            &&& n.ipv4 is Some <==> nic::first_unicast(one.unicast@) is Some
            &&& n.ipv4_mask is Some <==> nic::first_unicast(one.unicast@) is Some
            &&& nic::first_unicast(one.unicast@) matches Some(f) ==> n.ipv4 == Some(f.0)
                && n.ipv4_mask == Some(net::mask_of(f.1))
            &&& one.physical_address_len == 0 ==> n.mac == "无"@
            &&& 0 < one.physical_address_len < 8 ==> n.mac == net::mac_text(
                one.physical_address@.take(one.physical_address_len as int),
            )
            &&& one.physical_address_len >= 8 ==> n.mac == net::mac_text(one.physical_address@)
        }),
{
    let single = seq![one];
    let none = Seq::<NicV>::empty();
    assert(single.drop_last() =~= Seq::<RawAdapter>::empty());
    assert(nic::nics_of(single.drop_last()) == none);
    assert(nic::nics_of(single) == none.push(nic::nic_of(one)));
    let f = one.flags;
    assert((f & 4 != 0) == ((f >> 2) & 1 == 1)) by (bit_vector);
    assert(one.physical_address@.take(8) =~= one.physical_address@);
}

// ---------------------------------------------------------------- putting an adapter back

/// The arguments of a command that changes the name servers of an adapter.
pub open spec fn dns_arguments(verb: Seq<char>, name: Seq<char>) -> Seq<Seq<char>> {
    seq!["interface"@, "ip"@, verb, "dns"@, "name="@ + name]
}

proof fn lemma_head_tokens(verb: Seq<char>, noun: Seq<char>, name: Seq<char>, tail: Seq<char>)
    requires
        nic::is_word(verb),
        nic::is_word(noun),
        !name.contains('"'),
    ensures
        ({
            let sp = seq![' '];
            nic::tokens(
                "interface"@ + sp + ("ip"@ + sp + (verb + sp + (noun + sp + (nic::name_argument(
                    name,
                ) + sp + tail)))),
            ) == seq!["interface"@, "ip"@, verb, noun, "name="@ + name] + nic::tokens(tail)
        }),
{
    reveal_strlit("interface");
    reveal_strlit("ip");
    let sp = seq![' '];
    let n = nic::name_argument(name);
    nic::lemma_word("interface"@);
    nic::lemma_word("ip"@);
    nic::lemma_word(verb);
    nic::lemma_word(noun);
    nic::lemma_name_argument(name);
    nic::lemma_tokens_split(n, tail);
    let t1 = n + sp + tail;
    nic::lemma_tokens_split(noun, t1);
    let t2 = noun + sp + t1;
    nic::lemma_tokens_split(verb, t2);
    let t3 = verb + sp + t2;
    nic::lemma_tokens_split("ip"@, t3);
    let t4 = "ip"@ + sp + t3;
    nic::lemma_tokens_split("interface"@, t4);
    assert(nic::tokens("interface"@ + sp + t4) =~= seq![
        "interface"@,
        "ip"@,
        verb,
        noun,
        "name="@ + name,
    ] + nic::tokens(tail));
}

/// The name servers of an adapter are put back with one command for each, in order: the first is set, and
/// every other is added.
pub proof fn lemma_dns_steps(name: Seq<char>, dns: Seq<Seq<char>>, k: int)
    requires
        !name.contains('"'),
        0 <= k < dns.len(),
        forall|i: int| 0 <= i < dns.len() ==> nic::is_word(#[trigger] dns[i]),
    ensures
        nic::dns_steps(name, dns).len() == dns.len(),
        nic::tokens(nic::dns_steps(name, dns)[k].args) == (if k == 0 {
            dns_arguments("set"@, name) + seq!["static"@, dns[0]]
        } else {
            dns_arguments("add"@, name) + seq![dns[k]]
        }),
        !nic::dns_steps(name, dns)[k].may_be_set,
    decreases dns.len(),
{
    assert(nic::is_word(dns[k]));
    nic::lemma_word(dns[k]);
    if dns.len() == 1 {
        lemma_set_dns(name, dns[0]);
    } else {
        let init = dns.drop_last();
        assert forall|i: int| 0 <= i < init.len() implies nic::is_word(#[trigger] init[i]) by {
            assert(init[i] == dns[i]);
        }
        lemma_dns_steps(
            name,
            init,
            if k < init.len() {
                k
            } else {
                0
            },
        );
        if k == dns.len() - 1 {
            lemma_add_dns(name, dns[k]);
        }
    }
}

proof fn lemma_set_dns(name: Seq<char>, d: Seq<char>)
    requires
        !name.contains('"'),
        nic::is_word(d),
    ensures
        nic::tokens("interface ip set dns "@ + nic::name_argument(name) + " static "@ + d)
            == dns_arguments("set"@, name) + seq!["static"@, d],
{
    reveal_strlit("interface ip set dns ");
    reveal_strlit("interface");
    reveal_strlit("ip");
    reveal_strlit("set");
    reveal_strlit("dns");
    reveal_strlit(" static ");
    reveal_strlit("static");
    let sp = seq![' '];
    let tail = "static"@ + sp + d;
    nic::lemma_word("static"@);
    nic::lemma_word(d);
    nic::lemma_tokens_split("static"@, d);
    lemma_head_tokens("set"@, "dns"@, name, tail);
    let whole = "interface ip set dns "@ + nic::name_argument(name) + " static "@ + d;
    assert("interface ip set dns "@ =~= "interface"@ + sp + ("ip"@ + sp + ("set"@ + sp + ("dns"@
        + sp))));
    assert(" static "@ =~= sp + "static"@ + sp);
    assert(whole =~= "interface"@ + sp + ("ip"@ + sp + ("set"@ + sp + ("dns"@ + sp + (
    nic::name_argument(name) + sp + tail)))));
    assert(seq!["static"@] + seq![d] =~= seq!["static"@, d]);
}

proof fn lemma_add_dns(name: Seq<char>, d: Seq<char>)
    requires
        !name.contains('"'),
        nic::is_word(d),
    ensures
        nic::tokens("interface ip add dns "@ + nic::name_argument(name) + " "@ + d)
            == dns_arguments("add"@, name) + seq![d],
{
    reveal_strlit("interface ip add dns ");
    reveal_strlit("interface");
    reveal_strlit("ip");
    reveal_strlit("add");
    reveal_strlit("dns");
    reveal_strlit(" ");
    let sp = seq![' '];
    nic::lemma_word(d);
    lemma_head_tokens("add"@, "dns"@, name, d);
    let whole = "interface ip add dns "@ + nic::name_argument(name) + " "@ + d;
    assert("interface ip add dns "@ =~= "interface"@ + sp + ("ip"@ + sp + ("add"@ + sp + ("dns"@
        + sp))));
    assert(whole =~= "interface"@ + sp + ("ip"@ + sp + ("add"@ + sp + ("dns"@ + sp + (
    nic::name_argument(name) + sp + d)))));
}

/// An adapter that got its settings by DHCP is put back with two commands, one for the address, which may
/// be told that DHCP is on already, and one for the name servers.
pub proof fn lemma_restore_dhcp(n: NicV)
    requires
        !n.name.contains('"'),
        n.is_dhcp,
    ensures
        nic::restore_steps_of(n) matches Some(v) && {
            &&& v.len() == 2
            &&& nic::tokens(v[0].args) == seq![
                "interface"@,
                "ip"@,
                "set"@,
                "address"@,
                "name="@ + n.name,
                "dhcp"@,
            ]
            &&& v[0].may_be_set
            &&& nic::tokens(v[1].args) == dns_arguments("set"@, n.name) + seq!["dhcp"@]
            &&& !v[1].may_be_set
        },
{
    reveal_strlit("interface ip set address ");
    reveal_strlit("interface ip set dns ");
    reveal_strlit("interface");
    reveal_strlit("ip");
    reveal_strlit("set");
    reveal_strlit("address");
    reveal_strlit("dns");
    reveal_strlit(" dhcp");
    reveal_strlit("dhcp");
    let sp = seq![' '];
    nic::lemma_word("dhcp"@);
    lemma_head_tokens("set"@, "address"@, n.name, "dhcp"@);
    lemma_head_tokens("set"@, "dns"@, n.name, "dhcp"@);
    let a = "interface ip set address "@ + nic::name_argument(n.name) + " dhcp"@;
    let d = "interface ip set dns "@ + nic::name_argument(n.name) + " dhcp"@;
    assert(" dhcp"@ =~= sp + "dhcp"@);
    assert(a =~= "interface"@ + sp + ("ip"@ + sp + ("set"@ + sp + ("address"@ + sp + (
    nic::name_argument(n.name) + sp + "dhcp"@)))));
    assert(d =~= "interface"@ + sp + ("ip"@ + sp + ("set"@ + sp + ("dns"@ + sp + (
    nic::name_argument(n.name) + sp + "dhcp"@)))));
    assert(seq!["interface"@, "ip"@, "set"@, "address"@, "name="@ + n.name] + seq!["dhcp"@] =~= seq![
        "interface"@,
        "ip"@,
        "set"@,
        "address"@,
        "name="@ + n.name,
        "dhcp"@,
    ]);
}

/// An adapter with fixed settings is put back with a command for the address, where it had one, and then
/// one for each of its name servers. It cannot be put back exactly where it had an address and no mask.
pub proof fn lemma_restore_fixed(n: NicV, k: int)
    requires
        !n.name.contains('"'),
        !n.is_dhcp,
    ensures
        nic::restore_steps_of(n) is None <==> n.ipv4 is Some && n.ipv4_mask is None,
        nic::restore_steps_of(n) matches Some(v) ==> {
            let first = if n.ipv4 is Some {
                1int
            } else {
                0
            };
            &&& v.len() == first + n.dns.len()
            &&& first <= k < v.len() ==> nic::tokens(v[k].args) == if k == first {
                dns_arguments("set"@, n.name) + seq!["static"@, net::ip_text(n.dns[0])]
            } else {
                dns_arguments("add"@, n.name) + seq![net::ip_text(n.dns[k - first])]
            }
            &&& 0 <= k < v.len() ==> !v[k].may_be_set
        },
{
    let dns = nic::ip_texts(n.dns);
    assert forall|i: int| 0 <= i < dns.len() implies nic::is_word(#[trigger] dns[i]) by {
        nic::lemma_ip_is_word(n.dns[i]);
    }
    let first = if n.ipv4 is Some {
        1int
    } else {
        0
    };
    if n.dns.len() > 0 {
        lemma_dns_steps(
            n.name,
            dns,
            if first <= k < first + dns.len() {
                k - first
            } else {
                0
            },
        );
    }
}

// ---------------------------------------------------------------- outcomes

/// A command that ended well has gone well. One that failed has failed for its own reason, unless it may
/// be told that DHCP is on already and was told so, in English or in Chinese.
pub proof fn lemma_step_outcome(step: NetshV, output: Seq<char>, error: Seq<char>)
    ensures
        nic::step_outcome(step, Ok(output)) == Ok::<(), Seq<char>>(()),
        !step.may_be_set ==> nic::step_outcome(step, Err(error)) == Err::<(), Seq<char>>(error),
        step.may_be_set && (text::contains_text(error, "already"@) || text::contains_text(
            error,
            "已启用"@,
        )) ==> nic::step_outcome(step, Err(error)) == Ok::<(), Seq<char>>(()),
        !text::contains_text(error, "already"@) && !text::contains_text(error, "已启用"@)
            ==> nic::step_outcome(step, Err(error)) == Err::<(), Seq<char>>(error),
{
}

/// All commands are run in order as long as each goes well, and the first that fails is the last and gives
/// the reason.
pub proof fn lemma_commands_in_order(
    steps: Seq<NetshV>,
    results: Seq<Result<Seq<char>, Seq<char>>>,
    n: int,
)
    requires
        0 <= n <= steps.len(),
        steps.len() <= results.len(),
        forall|i: int| 0 <= i < n ==> nic::step_outcome(#[trigger] steps[i], results[i]) is Ok,
    ensures
        n == steps.len() ==> nic::commands_result(steps, results, 0) is Ok && nic::commands_run(
            steps,
            results,
            0,
        ) == n,
        n < steps.len() && nic::step_outcome(steps[n], results[n]) is Err ==> nic::commands_result(
            steps,
            results,
            0,
        ) == nic::step_outcome(steps[n], results[n]) && nic::commands_run(steps, results, 0) == n + 1,
        steps.len() > 0 ==> nic::command_at(steps, 0) == nic::CommandNextV::Run(steps[0].args),
        steps.len() == 0 ==> nic::command_at(steps, 0) == nic::CommandNextV::Done(Ok(())),
{
    lemma_commands_from(steps, results, 0, n);
}

proof fn lemma_commands_from(
    steps: Seq<NetshV>,
    results: Seq<Result<Seq<char>, Seq<char>>>,
    from: int,
    n: int,
)
    requires
        0 <= from <= n <= steps.len(),
        forall|i: int| from <= i < n ==> nic::step_outcome(#[trigger] steps[i], results[i]) is Ok,
    ensures
        n == steps.len() ==> nic::commands_result(steps, results, from) is Ok && nic::commands_run(
            steps,
            results,
            from,
        ) == n,
        n < steps.len() && nic::step_outcome(steps[n], results[n]) is Err ==> nic::commands_result(
            steps,
            results,
            from,
        ) == nic::step_outcome(steps[n], results[n]) && nic::commands_run(steps, results, from) == n
            + 1,
    decreases n - from,
{
    if from < n {
        lemma_commands_from(steps, results, from + 1, n);
        assert(nic::step_outcome(steps[from], results[from]) is Ok);
    }
}

/// The list of adapters is read where the system gave it, asked for again exactly where it did not fit and
/// more room is wanted than there was, and failed otherwise.
pub proof fn lemma_enumeration(code: u32, buffer: u32, wanted: u32, r: nic::EnumerateAction)
    requires
        nic::enumerates(code, buffer, wanted, r),
    ensures
        code == 0 <==> r is Read,
        code == 111 && wanted > buffer <==> r is Retry,
        code != 0 && (code != 111 || wanted <= buffer) <==> r is Fail,
{
}

/// A command goes well exactly where it was started, ended in time and ended well; then it gives all that
/// it printed, the output before the errors. Where not, the reason is given.
pub proof fn lemma_netsh_answer(args: Seq<char>, outcome: nic::NetshOutcome)
    ensures
        ({
            let a = nic::netsh_answer(args, outcome);
            match outcome {
                nic::NetshOutcome::NotStarted(e) => a matches Err(t) && text::contains_text(t, e@),
                nic::NetshOutcome::NotFinished(e) => a matches Err(t) && text::contains_text(t, e@),
                nic::NetshOutcome::TimedOut => a is Err,
                nic::NetshOutcome::Ended { success, stdout, stderr } => {
                    let all = text::utf8_text(stdout@) + text::utf8_text(stderr@);
                    if success {
                        a == Ok::<Seq<char>, Seq<char>>(all)
                    } else {
                        a matches Err(t) && text::contains_text(t, args) && text::contains_text(
                            t,
                            text::trim(all),
                        )
                    }
                },
            }
        }),
{
    let none = Seq::<char>::empty();
    match outcome {
        nic::NetshOutcome::NotStarted(e) => {
            let h = "无法启动 netsh: "@;
            status_laws::lemma_holds(h, e@, none);
            assert(h + e@ + none =~= h + e@);
        },
        nic::NetshOutcome::NotFinished(e) => {
            let h = "netsh 执行失败: "@;
            status_laws::lemma_holds(h, e@, none);
            assert(h + e@ + none =~= h + e@);
        },
        nic::NetshOutcome::TimedOut => {},
        nic::NetshOutcome::Ended { success, stdout, stderr } => {
            let w = text::trim(text::utf8_text(stdout@) + text::utf8_text(stderr@));
            let h = "netsh "@;
            let m = " 失败："@;
            status_laws::lemma_holds(h, args, m + w);
            status_laws::lemma_holds(h + args + m, w, none);
            assert(h + args + (m + w) =~= h + args + m + w);
            assert(h + args + m + w + none =~= h + args + m + w);
        },
    }
}

} // verus!
