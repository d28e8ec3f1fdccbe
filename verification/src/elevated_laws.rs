//! Putting an adapter back through the helper process comes to the same as putting it back directly.

use vstd::prelude::*;

use crate::elevated;
use crate::elevated::HelperPlanV;
use crate::net;
use crate::nic;
use crate::nic::NicV;
use crate::text;

verus! {

// ---------------------------------------------------------------- from command line to arguments

/// A quoted text that is not empty is one argument.
pub proof fn lemma_quoted_text(v: Seq<char>)
    requires
        v.len() > 0,
        !v.contains('"'),
    ensures
        nic::tokens(seq!['"'] + v + seq!['"']) == seq![v],
        !nic::quoted(seq!['"'] + v + seq!['"']),
{
    let open = seq!['"'];
    let none = Seq::<char>::empty();
    assert(open.drop_last() =~= none);
    assert(nic::pieces(none) == seq![none]);
    assert(nic::pieces(open) == seq![none]);
    assert(!nic::quoted(none));
    assert(nic::quoted(open));
    nic::lemma_inside_quotes(open, none, v);
    assert(none + v =~= v);
    let s = open + v + seq!['"'];
    assert(s.drop_last() =~= open + v);
    assert(s.last() == '"');
    assert(nic::pieces(s) == seq![v]);
    nic::lemma_single(v);
}

/// A flag with a quoted value is two arguments.
pub proof fn lemma_quoted_value(flag: Seq<char>, v: Seq<char>)
    requires
        nic::is_word(flag),
        v.len() > 0,
        !v.contains('"'),
    ensures
        nic::tokens(elevated::quoted_value(flag, v)) == seq![flag, v],
        !nic::quoted(elevated::quoted_value(flag, v)),
{
    reveal_strlit(" \"");
    reveal_strlit("\"");
    let q = seq!['"'] + v + seq!['"'];
    nic::lemma_word(flag);
    lemma_quoted_text(v);
    nic::lemma_tokens_split(flag, q);
    assert(elevated::quoted_value(flag, v) =~= flag + seq![' '] + q);
    assert(seq![flag] + seq![v] =~= seq![flag, v]);
}

/// A flag with a plain value is two arguments.
pub proof fn lemma_plain_value(flag: Seq<char>, v: Seq<char>)
    requires
        nic::is_word(flag),
        nic::is_word(v),
    ensures
        nic::tokens(elevated::plain_value(flag, v)) == seq![flag, v],
        !nic::quoted(elevated::plain_value(flag, v)),
{
    reveal_strlit(" ");
    nic::lemma_word(flag);
    nic::lemma_word(v);
    nic::lemma_tokens_split(flag, v);
    assert(elevated::plain_value(flag, v) =~= flag + seq![' '] + v);
    assert(seq![flag] + seq![v] =~= seq![flag, v]);
}

/// The arguments that some parts of a command line give, one after the other.
pub open spec fn all_tokens(parts: Seq<Seq<char>>) -> Seq<Seq<char>>
    decreases parts.len(),
{
    if parts.len() == 0 {
        Seq::empty()
    } else {
        all_tokens(parts.drop_last()) + nic::tokens(parts.last())
    }
}

/// Every part closes its quotes.
pub open spec fn all_closed(parts: Seq<Seq<char>>) -> bool {
    forall|i: int| 0 <= i < parts.len() ==> !nic::quoted(#[trigger] parts[i])
}

/// Parts behind blanks give their arguments one after the other.
pub proof fn lemma_spaced_tokens(head: Seq<char>, parts: Seq<Seq<char>>)
    requires
        !nic::quoted(head),
        all_closed(parts),
    ensures
        nic::tokens(head + elevated::spaced(parts)) == nic::tokens(head) + all_tokens(parts),
        !nic::quoted(head + elevated::spaced(parts)),
    decreases parts.len(),
{
    if parts.len() == 0 {
        assert(head + elevated::spaced(parts) =~= head);
        assert(nic::tokens(head) + all_tokens(parts) =~= nic::tokens(head));
    } else {
        let init = parts.drop_last();
        assert forall|i: int| 0 <= i < init.len() implies !nic::quoted(#[trigger] init[i]) by {
            assert(init[i] == parts[i]);
        }
        lemma_spaced_tokens(head, init);
        let before = head + elevated::spaced(init);
        assert(parts.last() == parts[parts.len() - 1]);
        nic::lemma_tokens_split(before, parts.last());
        reveal_strlit(" ");
        assert(" "@ =~= seq![' ']);
        assert(head + elevated::spaced(parts) =~= before + seq![' '] + parts.last());
        assert(nic::tokens(head) + all_tokens(parts) =~= nic::tokens(before) + nic::tokens(
            parts.last(),
        ));
    }
}

proof fn lemma_all_tokens_concat(a: Seq<Seq<char>>, b: Seq<Seq<char>>)
    ensures
        all_tokens(a + b) == all_tokens(a) + all_tokens(b),
    decreases b.len(),
{
    if b.len() == 0 {
        assert(a + b =~= a);
        assert(all_tokens(a) + all_tokens(b) =~= all_tokens(a));
    } else {
        let init = b.drop_last();
        lemma_all_tokens_concat(a, init);
        assert((a + b).drop_last() =~= a + init);
        assert((a + b).last() == b.last());
        assert(all_tokens(a + b) =~= all_tokens(a) + all_tokens(b));
    }
}

proof fn lemma_all_tokens_one(p: Seq<char>)
    ensures
        all_tokens(seq![p]) == nic::tokens(p),
{
    let none = seq![p].drop_last();
    assert(none.len() == 0);
    assert(all_tokens(none) =~= Seq::<Seq<char>>::empty());
    assert(all_tokens(seq![p]) =~= nic::tokens(p));
}

proof fn lemma_closed_concat(a: Seq<Seq<char>>, b: Seq<Seq<char>>)
    requires
        all_closed(a),
        all_closed(b),
    ensures
        all_closed(a + b),
{
    let s = a + b;
    assert forall|i: int| 0 <= i < s.len() implies !nic::quoted(#[trigger] s[i]) by {
        if i < a.len() {
            assert(s[i] == a[i]);
        } else {
            assert(s[i] == b[i - a.len()]);
        }
    }
}

// ---------------------------------------------------------------- the arguments of a restore

/// A flag and its value as arguments, where there is a value.
pub open spec fn pair(flag: Seq<char>, v: Option<Seq<char>>) -> Seq<Seq<char>> {
    match v {
        Some(v) => seq![flag, v],
        None => Seq::empty(),
    }
}

/// The list of name servers, where there are any.
pub open spec fn dns_value(n: NicV) -> Option<Seq<char>> {
    if n.dns.len() > 0 {
        Some(text::join(nic::ip_texts(n.dns), ","@))
    } else {
        None
    }
}

/// The arguments that describe an adapter.
pub open spec fn adapter_arguments(n: NicV) -> Seq<Seq<char>> {
    if n.is_dhcp {
        seq!["--dhcp"@]
    } else {
        pair("--ip"@, nic::opt_ip_text(n.ipv4)) + pair("--mask"@, nic::opt_ip_text(n.ipv4_mask))
            + pair("--gateway"@, nic::opt_ip_text(n.gateway)) + pair("--dns"@, dns_value(n))
    }
}

/// The arguments of a helper process that puts an adapter back.
pub open spec fn helper_arguments(exe: Seq<char>, n: NicV, file: Seq<char>) -> Seq<Seq<char>> {
    seq![exe, "--elevated-op"@, "restore"@, "--nic"@, n.name] + adapter_arguments(n) + seq![
        "--result"@,
        file,
    ]
}

proof fn lemma_flags_are_words()
    ensures
        nic::is_word("--elevated-op"@),
        nic::is_word("restore"@),
        nic::is_word("--nic"@),
        nic::is_word("--dhcp"@),
        nic::is_word("--ip"@),
        nic::is_word("--mask"@),
        nic::is_word("--gateway"@),
        nic::is_word("--dns"@),
        nic::is_word("--result"@),
{
    reveal_strlit("--elevated-op");
    reveal_strlit("restore");
    reveal_strlit("--nic");
    reveal_strlit("--dhcp");
    reveal_strlit("--ip");
    reveal_strlit("--mask");
    reveal_strlit("--gateway");
    reveal_strlit("--dns");
    reveal_strlit("--result");
}

proof fn lemma_address_part(flag: Seq<char>, ip: Option<u32>)
    requires
        nic::is_word(flag),
    ensures
        all_closed(elevated::address_args(flag, ip)),
        all_tokens(elevated::address_args(flag, ip)) == pair(flag, nic::opt_ip_text(ip)),
{
    match ip {
        Some(v) => {
            nic::lemma_ip_is_word(v);
            lemma_plain_value(flag, net::ip_text(v));
            lemma_all_tokens_one(elevated::plain_value(flag, net::ip_text(v)));
        },
        None => {
            assert(all_tokens(elevated::address_args(flag, ip)) =~= Seq::<Seq<char>>::empty());
        },
    }
}

/// Dotted addresses joined by commas are one argument.
proof fn lemma_joined_is_word(v: Seq<u32>)
    requires
        v.len() > 0,
    ensures
        nic::is_word(text::join(nic::ip_texts(v), ","@)),
    decreases v.len(),
{
    reveal_strlit(",");
    let t = nic::ip_texts(v);
    nic::lemma_ip_is_word(v.last());
    assert(t.last() == net::ip_text(v.last()));
    if v.len() > 1 {
        lemma_joined_is_word(v.drop_last());
        assert(t.drop_last() =~= nic::ip_texts(v.drop_last()));
        let a = text::join(t.drop_last(), ","@);
        let s = text::join(t, ","@);
        assert(s =~= a + ","@ + t.last());
        assert forall|i: int| 0 <= i < s.len() implies #[trigger] s[i] != '"' && !nic::is_blank(
            s[i],
        ) by {
            if i < a.len() {
                assert(s[i] == a[i]);
            } else if i > a.len() {
                assert(s[i] == t.last()[i - a.len() - 1]);
            }
        }
    } else {
        assert(t[0] == t.last());
    }
}

proof fn lemma_adapter_part(n: NicV)
    requires
        n.name.len() > 0,
        !n.name.contains('"'),
    ensures
        all_closed(elevated::restore_args_of(n)),
        all_tokens(elevated::restore_args_of(n)) == seq!["--nic"@, n.name] + adapter_arguments(n),
{
    lemma_flags_are_words();
    let name = seq![elevated::quoted_value("--nic"@, n.name)];
    lemma_quoted_value("--nic"@, n.name);
    lemma_all_tokens_one(elevated::quoted_value("--nic"@, n.name));
    if n.is_dhcp {
        nic::lemma_word("--dhcp"@);
        lemma_all_tokens_one("--dhcp"@);
        lemma_all_tokens_concat(name, seq!["--dhcp"@]);
        assert(elevated::restore_args_of(n) =~= name + seq!["--dhcp"@]);
    } else {
        let a = elevated::address_args("--ip"@, n.ipv4);
        let m = elevated::address_args("--mask"@, n.ipv4_mask);
        let g = elevated::address_args("--gateway"@, n.gateway);
        let d = if n.dns.len() > 0 {
            seq![elevated::plain_value("--dns"@, text::join(nic::ip_texts(n.dns), ","@))]
        } else {
            Seq::empty()
        };
        lemma_address_part("--ip"@, n.ipv4);
        lemma_address_part("--mask"@, n.ipv4_mask);
        lemma_address_part("--gateway"@, n.gateway);
        if n.dns.len() > 0 {
            let list = text::join(nic::ip_texts(n.dns), ","@);
            lemma_joined_is_word(n.dns);
            lemma_plain_value("--dns"@, list);
            lemma_all_tokens_one(elevated::plain_value("--dns"@, list));
        } else {
            assert(all_tokens(d) =~= Seq::<Seq<char>>::empty());
        }
        assert(all_tokens(d) == pair("--dns"@, dns_value(n)));
        lemma_closed_concat(name, a);
        lemma_closed_concat(name + a, m);
        lemma_closed_concat(name + a + m, g);
        lemma_closed_concat(name + a + m + g, d);
        lemma_all_tokens_concat(name, a);
        lemma_all_tokens_concat(name + a, m);
        lemma_all_tokens_concat(name + a + m, g);
        lemma_all_tokens_concat(name + a + m + g, d);
        assert(elevated::restore_args_of(n) == name + a + m + g + d);
        assert(all_tokens(elevated::restore_args_of(n)) =~= seq!["--nic"@, n.name]
            + adapter_arguments(n));
    }
}

/// The command line of a helper process that puts an adapter back gives these arguments.
pub proof fn lemma_helper_arguments(exe: Seq<char>, n: NicV, file: Seq<char>)
    requires
        n.name.len() > 0,
        !n.name.contains('"'),
        file.len() > 0,
        !file.contains('"'),
    ensures
        seq![exe] + nic::tokens(
            elevated::params_of("restore"@, elevated::restore_args_of(n), file),
        ) == helper_arguments(exe, n, file),
{
    lemma_flags_are_words();
    lemma_adapter_part(n);
    let parts = elevated::restore_args_of(n);
    let head = elevated::plain_value("--elevated-op"@, "restore"@);
    lemma_plain_value("--elevated-op"@, "restore"@);
    lemma_spaced_tokens(head, parts);
    let middle = head + elevated::spaced(parts);
    let tail = elevated::quoted_value("--result"@, file);
    lemma_quoted_value("--result"@, file);
    nic::lemma_tokens_split(middle, tail);
    reveal_strlit("--elevated-op ");
    reveal_strlit("--elevated-op");
    reveal_strlit(" ");
    reveal_strlit(" --result \"");
    reveal_strlit("--result");
    reveal_strlit(" \"");
    assert("--elevated-op "@ =~= "--elevated-op"@ + " "@);
    assert(" --result \""@ =~= seq![' '] + "--result"@ + " \""@);
    let params = elevated::params_of("restore"@, parts, file);
    assert(params =~= middle + seq![' '] + tail);
    assert(seq![exe] + nic::tokens(params) =~= helper_arguments(exe, n, file));
}

// ---------------------------------------------------------------- finding the values

/// `flag` does not occur.
pub open spec fn free(s: Seq<Seq<char>>, flag: Seq<char>) -> bool {
    forall|i: int| 0 <= i < s.len() ==> #[trigger] s[i] != flag
}

proof fn lemma_free_concat(a: Seq<Seq<char>>, b: Seq<Seq<char>>, flag: Seq<char>)
    requires
        free(a, flag),
        free(b, flag),
    ensures
        free(a + b, flag),
{
    let s = a + b;
    assert forall|i: int| 0 <= i < s.len() implies #[trigger] s[i] != flag by {
        if i < a.len() {
            assert(s[i] == a[i]);
        } else {
            assert(s[i] == b[i - a.len()]);
        }
    }
}

/// The value of a flag that stands between parts without it.
proof fn lemma_lookup(a: Seq<Seq<char>>, flag: Seq<char>, v: Option<Seq<char>>, b: Seq<Seq<char>>)
    requires
        free(a, flag),
        v is None ==> free(b, flag),
    ensures
        elevated::value_of(a + pair(flag, v) + b, flag) == v,
{
    let s = a + pair(flag, v) + b;
    elevated::lemma_position(s, flag);
    match v {
        Some(x) => {
            assert(s[a.len() as int] == flag);
            assert(s[(a.len() + 1) as int] == x);
            assert forall|j: int| 0 <= j < a.len() implies #[trigger] s[j] != flag by {
                assert(s[j] == a[j]);
            }
        },
        None => {
            lemma_free_concat(a, pair(flag, v), flag);
            lemma_free_concat(a + pair(flag, v), b, flag);
        },
    }
}

/// One of the flags of a helper process.
pub open spec fn is_flag(w: Seq<char>) -> bool {
    w == "--elevated-op"@ || w == "--nic"@ || w == "--dhcp"@ || w == "--ip"@ || w == "--mask"@ || w
        == "--gateway"@ || w == "--dns"@ || w == "--result"@
}

proof fn lemma_flags_differ()
    ensures
        "--nic"@ != "--elevated-op"@ && "--nic"@ != "--dhcp"@ && "--nic"@ != "--ip"@ && "--nic"@
            != "--mask"@ && "--nic"@ != "--gateway"@ && "--nic"@ != "--dns"@ && "--nic"@
            != "--result"@,
        "--dhcp"@ != "--elevated-op"@ && "--dhcp"@ != "--ip"@ && "--dhcp"@ != "--mask"@ && "--dhcp"@
            != "--gateway"@ && "--dhcp"@ != "--dns"@ && "--dhcp"@ != "--result"@,
        "--ip"@ != "--elevated-op"@ && "--ip"@ != "--mask"@ && "--ip"@ != "--gateway"@ && "--ip"@
            != "--dns"@ && "--ip"@ != "--result"@,
        "--mask"@ != "--elevated-op"@ && "--mask"@ != "--gateway"@ && "--mask"@ != "--dns"@
            && "--mask"@ != "--result"@,
        "--gateway"@ != "--elevated-op"@ && "--gateway"@ != "--dns"@ && "--gateway"@
            != "--result"@,
        "--dns"@ != "--elevated-op"@ && "--dns"@ != "--result"@,
        "--result"@ != "--elevated-op"@,
        !is_flag("restore"@),
{
    reveal_strlit("--elevated-op");
    reveal_strlit("restore");
    reveal_strlit("--nic");
    reveal_strlit("--dhcp");
    reveal_strlit("--ip");
    reveal_strlit("--mask");
    reveal_strlit("--gateway");
    reveal_strlit("--dns");
    reveal_strlit("--result");
    assert("--elevated-op"@.len() == 13 && "--nic"@.len() == 5 && "--dhcp"@.len() == 6 && "--ip"@.len()
        == 4 && "--mask"@.len() == 6 && "--gateway"@.len() == 9 && "--dns"@.len() == 5
        && "--result"@.len() == 8);
    assert("--nic"@[2] == 'n' && "--dns"@[2] == 'd');
    assert("--dhcp"@[2] == 'd' && "--mask"@[2] == 'm');
    assert("restore"@[0] == 'r');
    assert("--elevated-op"@[0] == '-' && "--nic"@[0] == '-' && "--dhcp"@[0] == '-' && "--ip"@[0]
        == '-' && "--mask"@[0] == '-' && "--gateway"@[0] == '-' && "--dns"@[0] == '-'
        && "--result"@[0] == '-');
}

/// A text that begins with a digit is no flag.
proof fn lemma_digit_is_no_flag(w: Seq<char>)
    requires
        w.len() > 0,
        text::is_digit(w[0]),
    ensures
        !is_flag(w),
{
    reveal_strlit("--elevated-op");
    reveal_strlit("--nic");
    reveal_strlit("--dhcp");
    reveal_strlit("--ip");
    reveal_strlit("--mask");
    reveal_strlit("--gateway");
    reveal_strlit("--dns");
    reveal_strlit("--result");
    assert("--elevated-op"@[0] == '-' && "--nic"@[0] == '-' && "--dhcp"@[0] == '-' && "--ip"@[0]
        == '-' && "--mask"@[0] == '-' && "--gateway"@[0] == '-' && "--dns"@[0] == '-'
        && "--result"@[0] == '-');
}

proof fn lemma_ip_begins_with_digit(v: u32)
    ensures
        net::ip_text(v).len() > 0,
        text::is_digit(net::ip_text(v)[0]),
{
    let a = text::dec((v / 0x100_0000) as nat);
    text::lemma_dec_digits((v / 0x100_0000) as nat);
    assert(net::ip_text(v)[0] == a[0]);
}

proof fn lemma_joined_begins_with_digit(v: Seq<u32>)
    requires
        v.len() > 0,
    ensures
        ({
            let s = text::join(nic::ip_texts(v), ","@);
            s.len() > 0 && text::is_digit(s[0])
        }),
    decreases v.len(),
{
    let t = nic::ip_texts(v);
    lemma_ip_begins_with_digit(v[0]);
    assert(t[0] == net::ip_text(v[0]));
    if v.len() > 1 {
        lemma_joined_begins_with_digit(v.drop_last());
        assert(t.drop_last() =~= nic::ip_texts(v.drop_last()));
        let a = text::join(t.drop_last(), ","@);
        let s = text::join(t, ","@);
        assert(s =~= a + (","@ + t.last()));
        assert(s[0] == a[0]);
    }
}

proof fn lemma_pair_free(flag: Seq<char>, v: Option<Seq<char>>, other: Seq<char>)
    requires
        is_flag(other),
        flag != other,
        v matches Some(x) ==> !is_flag(x),
    ensures
        free(pair(flag, v), other),
{
}

// ---------------------------------------------------------------- the name servers

proof fn lemma_split_tail(a: Seq<char>, sep: char, b: Seq<char>)
    requires
        !b.contains(sep),
    ensures
        text::split(a + seq![sep] + b, sep) == text::split(a, sep).push(b),
    decreases b.len(),
{
    let s = a + seq![sep] + b;
    if b.len() == 0 {
        assert(s.drop_last() =~= a);
        assert(b =~= Seq::<char>::empty());
    } else {
        let init = b.drop_last();
        assert(b.contains(b.last()));
        assert forall|i: int| 0 <= i < init.len() implies init[i] != sep by {
            assert(b.contains(b[i]));
        }
        lemma_split_tail(a, sep, init);
        assert(s.drop_last() =~= a + seq![sep] + init);
        assert(s.last() == b.last());
        let before = text::split(a, sep).push(init);
        assert(before.drop_last() =~= text::split(a, sep));
        assert(init.push(b.last()) =~= b);
    }
}

proof fn lemma_split_joined(v: Seq<u32>)
    requires
        v.len() > 0,
    ensures
        text::split(text::join(nic::ip_texts(v), ","@), ',') == nic::ip_texts(v),
    decreases v.len(),
{
    reveal_strlit(",");
    let t = nic::ip_texts(v);
    lemma_ip_has_no_comma(v.last());
    assert(t.last() == net::ip_text(v.last()));
    if v.len() == 1 {
        text::lemma_split_whole(t[0], ',');
        assert(t =~= seq![t[0]]);
    } else {
        lemma_split_joined(v.drop_last());
        assert(t.drop_last() =~= nic::ip_texts(v.drop_last()));
        let a = text::join(t.drop_last(), ","@);
        assert(","@ =~= seq![',']);
        lemma_split_tail(a, ',', t.last());
        assert(t.drop_last().push(t.last()) =~= t);
    }
}

/// A dotted address consists of digits and dots.
proof fn lemma_ip_chars(v: u32)
    ensures
        forall|i: int|
            0 <= i < net::ip_text(v).len() ==> text::is_digit(#[trigger] net::ip_text(v)[i])
                || net::ip_text(v)[i] == '.',
{
    let a = text::dec((v / 0x100_0000) as nat);
    let b = text::dec((v / 0x1_0000 % 0x100) as nat);
    let c = text::dec((v / 0x100 % 0x100) as nat);
    let d = text::dec((v % 0x100) as nat);
    text::lemma_dec_digits((v / 0x100_0000) as nat);
    text::lemma_dec_digits((v / 0x1_0000 % 0x100) as nat);
    text::lemma_dec_digits((v / 0x100 % 0x100) as nat);
    text::lemma_dec_digits((v % 0x100) as nat);
    let s = net::ip_text(v);
    let i1 = a.len();
    let i2 = i1 + 1 + b.len();
    let i3 = i2 + 1 + c.len();
    assert forall|i: int| 0 <= i < s.len() implies text::is_digit(#[trigger] s[i]) || s[i] == '.' by {
        if i < i1 {
            assert(s[i] == a[i]);
        } else if i == i1 {
        } else if i < i2 {
            assert(s[i] == b[i - i1 - 1]);
        } else if i == i2 {
        } else if i < i3 {
            assert(s[i] == c[i - i2 - 1]);
        } else if i > i3 {
            assert(s[i] == d[i - i3 - 1]);
        }
    }
}

proof fn lemma_ip_has_no_comma(v: u32)
    ensures
        !net::ip_text(v).contains(','),
{
    lemma_ip_chars(v);
}

proof fn lemma_ip_is_trim(v: u32)
    ensures
        text::trim(net::ip_text(v)) == net::ip_text(v),
        net::ip_text(v).len() > 0,
{
    lemma_ip_chars(v);
    lemma_ip_begins_with_digit(v);
    let s = net::ip_text(v);
    assert(!text::is_white(s[0]));
    assert(!text::is_white(s.last()));
}

proof fn lemma_dns_list(v: Seq<u32>)
    ensures
        elevated::dns_list(nic::ip_texts(v)) == nic::ip_texts(v),
    decreases v.len(),
{
    let t = nic::ip_texts(v);
    if v.len() > 0 {
        lemma_dns_list(v.drop_last());
        assert(t.drop_last() =~= nic::ip_texts(v.drop_last()));
        assert(t.last() == net::ip_text(v.last()));
        lemma_ip_is_trim(v.last());
        assert(t.drop_last().push(t.last()) =~= t);
    } else {
        assert(elevated::dns_list(t) =~= t);
    }
}

// ---------------------------------------------------------------- the law

proof fn lemma_values(exe: Seq<char>, n: NicV, file: Seq<char>)
    requires
        !n.is_dhcp,
        !is_flag(exe),
        !is_flag(n.name),
        !is_flag(file),
    ensures
        ({
            let args = helper_arguments(exe, n, file);
            &&& elevated::value_of(args, "--result"@) == Some(file)
            &&& elevated::value_of(args, "--nic"@) == Some(n.name)
            &&& elevated::position_of(args, "--dhcp"@) is None
            &&& elevated::value_of(args, "--ip"@) == nic::opt_ip_text(n.ipv4)
            &&& elevated::value_of(args, "--mask"@) == nic::opt_ip_text(n.ipv4_mask)
            &&& elevated::value_of(args, "--gateway"@) == nic::opt_ip_text(n.gateway)
            &&& elevated::value_of(args, "--dns"@) == dns_value(n)
        }),
{
    lemma_flags_differ();
    let start = seq![exe, "--elevated-op"@, "restore"@];
    let vi = nic::opt_ip_text(n.ipv4);
    let vm = nic::opt_ip_text(n.ipv4_mask);
    let vg = nic::opt_ip_text(n.gateway);
    let vd = dns_value(n);
    if n.ipv4 is Some {
        lemma_ip_begins_with_digit(n.ipv4->0);
        lemma_digit_is_no_flag(vi->0);
    }
    if n.ipv4_mask is Some {
        lemma_ip_begins_with_digit(n.ipv4_mask->0);
        lemma_digit_is_no_flag(vm->0);
    }
    if n.gateway is Some {
        lemma_ip_begins_with_digit(n.gateway->0);
        lemma_digit_is_no_flag(vg->0);
    }
    if n.dns.len() > 0 {
        lemma_joined_begins_with_digit(n.dns);
        lemma_digit_is_no_flag(vd->0);
    }
    lemma_value_of_each(start, n.name, vi, vm, vg, vd, file);
    lemma_arguments_shape(exe, n, file);
}

proof fn lemma_arguments_shape(exe: Seq<char>, n: NicV, file: Seq<char>)
    requires
        !n.is_dhcp,
    ensures
        helper_arguments(exe, n, file) == seq![exe, "--elevated-op"@, "restore"@] + pair(
            "--nic"@,
            Some(n.name),
        ) + pair("--ip"@, nic::opt_ip_text(n.ipv4)) + pair(
            "--mask"@,
            nic::opt_ip_text(n.ipv4_mask),
        ) + pair("--gateway"@, nic::opt_ip_text(n.gateway)) + pair("--dns"@, dns_value(n)) + pair(
            "--result"@,
            Some(file),
        ),
{
    let start = seq![exe, "--elevated-op"@, "restore"@];
    let name = pair("--nic"@, Some(n.name));
    let i = pair("--ip"@, nic::opt_ip_text(n.ipv4));
    let m = pair("--mask"@, nic::opt_ip_text(n.ipv4_mask));
    let g = pair("--gateway"@, nic::opt_ip_text(n.gateway));
    let d = pair("--dns"@, dns_value(n));
    let r = pair("--result"@, Some(file));
    let head = seq![exe, "--elevated-op"@, "restore"@, "--nic"@, n.name];
    assert(head =~= start + name);
    assert(head + (i + m + g + d) + r =~= start + name + i + m + g + d + r);
}

#[verifier::rlimit(60)]
#[verifier::spinoff_prover]
proof fn lemma_value_of_each(
    start: Seq<Seq<char>>,
    n: Seq<char>,
    vi: Option<Seq<char>>,
    vm: Option<Seq<char>>,
    vg: Option<Seq<char>>,
    vd: Option<Seq<char>>,
    file: Seq<char>,
)
    requires
        start.len() == 3,
        !is_flag(start[0]),
        start[1] == "--elevated-op"@,
        start[2] == "restore"@,
        !is_flag(n),
        !is_flag(file),
        vi matches Some(x) ==> !is_flag(x),
        vm matches Some(x) ==> !is_flag(x),
        vg matches Some(x) ==> !is_flag(x),
        vd matches Some(x) ==> !is_flag(x),
    ensures
        ({
            let args = start + pair("--nic"@, Some(n)) + pair("--ip"@, vi) + pair("--mask"@, vm)
                + pair("--gateway"@, vg) + pair("--dns"@, vd) + pair("--result"@, Some(file));
            &&& elevated::value_of(args, "--result"@) == Some(file)
            &&& elevated::value_of(args, "--nic"@) == Some(n)
            &&& elevated::position_of(args, "--dhcp"@) is None
            &&& elevated::value_of(args, "--ip"@) == vi
            &&& elevated::value_of(args, "--mask"@) == vm
            &&& elevated::value_of(args, "--gateway"@) == vg
            &&& elevated::value_of(args, "--dns"@) == vd
        }),
{
    lemma_flags_differ();
    let name = pair("--nic"@, Some(n));
    let i = pair("--ip"@, vi);
    let m = pair("--mask"@, vm);
    let g = pair("--gateway"@, vg);
    let d = pair("--dns"@, vd);
    let r = pair("--result"@, Some(file));
    let args = start + name + i + m + g + d + r;
    assert(elevated::value_of(args, "--nic"@) == Some(n)) by {
        lemma_lookup(start, "--nic"@, Some(n), i + m + g + d + r);
        assert(args =~= start + name + (i + m + g + d + r));
    }
    assert(elevated::value_of(args, "--ip"@) == vi) by {
        lemma_pair_free("--nic"@, Some(n), "--ip"@);
        lemma_pair_free("--mask"@, vm, "--ip"@);
        lemma_pair_free("--gateway"@, vg, "--ip"@);
        lemma_pair_free("--dns"@, vd, "--ip"@);
        lemma_pair_free("--result"@, Some(file), "--ip"@);
        lemma_free_concat(start, name, "--ip"@);
        lemma_free_concat(m, g, "--ip"@);
        lemma_free_concat(m + g, d, "--ip"@);
        lemma_free_concat(m + g + d, r, "--ip"@);
        lemma_lookup(start + name, "--ip"@, vi, m + g + d + r);
        assert(args =~= (start + name) + i + (m + g + d + r));
    }
    assert(elevated::value_of(args, "--mask"@) == vm) by {
        lemma_pair_free("--nic"@, Some(n), "--mask"@);
        lemma_pair_free("--ip"@, vi, "--mask"@);
        lemma_pair_free("--gateway"@, vg, "--mask"@);
        lemma_pair_free("--dns"@, vd, "--mask"@);
        lemma_pair_free("--result"@, Some(file), "--mask"@);
        lemma_free_concat(start, name, "--mask"@);
        lemma_free_concat(start + name, i, "--mask"@);
        lemma_free_concat(g, d, "--mask"@);
        lemma_free_concat(g + d, r, "--mask"@);
        lemma_lookup(start + name + i, "--mask"@, vm, g + d + r);
        assert(args =~= (start + name + i) + m + (g + d + r));
    }
    assert(elevated::value_of(args, "--gateway"@) == vg) by {
        lemma_pair_free("--nic"@, Some(n), "--gateway"@);
        lemma_pair_free("--ip"@, vi, "--gateway"@);
        lemma_pair_free("--mask"@, vm, "--gateway"@);
        lemma_pair_free("--dns"@, vd, "--gateway"@);
        lemma_pair_free("--result"@, Some(file), "--gateway"@);
        lemma_free_concat(start, name, "--gateway"@);
        lemma_free_concat(start + name, i, "--gateway"@);
        lemma_free_concat(start + name + i, m, "--gateway"@);
        lemma_free_concat(d, r, "--gateway"@);
        lemma_lookup(start + name + i + m, "--gateway"@, vg, d + r);
        assert(args =~= (start + name + i + m) + g + (d + r));
    }
    assert(elevated::value_of(args, "--dns"@) == vd) by {
        lemma_pair_free("--nic"@, Some(n), "--dns"@);
        lemma_pair_free("--ip"@, vi, "--dns"@);
        lemma_pair_free("--mask"@, vm, "--dns"@);
        lemma_pair_free("--gateway"@, vg, "--dns"@);
        lemma_pair_free("--result"@, Some(file), "--dns"@);
        lemma_free_concat(start, name, "--dns"@);
        lemma_free_concat(start + name, i, "--dns"@);
        lemma_free_concat(start + name + i, m, "--dns"@);
        lemma_free_concat(start + name + i + m, g, "--dns"@);
        lemma_lookup(start + name + i + m + g, "--dns"@, vd, r);
    }
    assert(elevated::value_of(args, "--result"@) == Some(file)) by {
        lemma_pair_free("--nic"@, Some(n), "--result"@);
        lemma_pair_free("--ip"@, vi, "--result"@);
        lemma_pair_free("--mask"@, vm, "--result"@);
        lemma_pair_free("--gateway"@, vg, "--result"@);
        lemma_pair_free("--dns"@, vd, "--result"@);
        lemma_free_concat(start, name, "--result"@);
        lemma_free_concat(start + name, i, "--result"@);
        lemma_free_concat(start + name + i, m, "--result"@);
        lemma_free_concat(start + name + i + m, g, "--result"@);
        lemma_free_concat(start + name + i + m + g, d, "--result"@);
        let none = Seq::<Seq<char>>::empty();
        lemma_lookup(start + name + i + m + g + d, "--result"@, Some(file), none);
        assert(args =~= (start + name + i + m + g + d) + r + none);
    }
    assert(elevated::position_of(args, "--dhcp"@) is None) by {
        lemma_pair_free("--nic"@, Some(n), "--dhcp"@);
        lemma_pair_free("--ip"@, vi, "--dhcp"@);
        lemma_pair_free("--mask"@, vm, "--dhcp"@);
        lemma_pair_free("--gateway"@, vg, "--dhcp"@);
        lemma_pair_free("--dns"@, vd, "--dhcp"@);
        lemma_pair_free("--result"@, Some(file), "--dhcp"@);
        lemma_free_concat(start, name, "--dhcp"@);
        lemma_free_concat(start + name, i, "--dhcp"@);
        lemma_free_concat(start + name + i, m, "--dhcp"@);
        lemma_free_concat(start + name + i + m, g, "--dhcp"@);
        lemma_free_concat(start + name + i + m + g, d, "--dhcp"@);
        lemma_free_concat(start + name + i + m + g + d, r, "--dhcp"@);
        elevated::lemma_position(args, "--dhcp"@);
    }
}

/// An adapter is put back by the helper process with the same commands as by the program itself. The
/// helper process gets the arguments of its command line; the names of the adapter, of the program and
/// of the result file are not flags of it.
pub proof fn lemma_helper_restores(exe: Seq<char>, n: NicV, file: Seq<char>)
    requires
        n.name.len() > 0,
        !n.name.contains('"'),
        file.len() > 0,
        !file.contains('"'),
        !is_flag(exe),
        !is_flag(n.name),
        !is_flag(file),
        nic::restore_steps_of(n) is Some,
    ensures
        elevated::plan_of(
            "restore"@,
            seq![exe] + nic::tokens(
                elevated::params_of("restore"@, elevated::restore_args_of(n), file),
            ),
        ) == HelperPlanV::Restore(nic::restore_steps_of(n)->0),
{
    let args = helper_arguments(exe, n, file);
    lemma_helper_arguments(exe, n, file);
    assert("set"@ != "restore"@) by {
        reveal_strlit("set");
        reveal_strlit("restore");
    }
    if n.is_dhcp {
        lemma_flags_differ();
        elevated::lemma_position(args, "--result"@);
        elevated::lemma_position(args, "--nic"@);
        elevated::lemma_position(args, "--dhcp"@);
        assert(args =~= seq![
            exe,
            "--elevated-op"@,
            "restore"@,
            "--nic"@,
            n.name,
            "--dhcp"@,
            "--result"@,
            file,
        ]);
        assert(args[3] == "--nic"@);
        assert(args[5] == "--dhcp"@);
        assert(args[6] == "--result"@);
    } else {
        lemma_values(exe, n, file);
        if n.dns.len() > 0 {
            lemma_split_joined(n.dns);
            lemma_dns_list(n.dns);
        } else {
            assert(nic::ip_texts(n.dns) =~= Seq::<Seq<char>>::empty());
        }
        assert(elevated::dns_in(args) == nic::ip_texts(n.dns));
    }
}

} // verus!
