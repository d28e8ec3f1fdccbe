//! What the main menu lists and chooses.

use vstd::prelude::*;
use vstd::string::*;

use crate::elevated;
use crate::elevated::{HelperPlanV, Startup};
use crate::elevated_laws;
use crate::lifecycle_laws;
use crate::listing;
use crate::menu;
use crate::menu::{DirEntry, FirmwareChoice, MenuChoice, MenuV, StartCheck};
use crate::nic;
use crate::nic::NicV;
use crate::paths;
use crate::text;
use crate::text_laws;

verus! {

// ---------------------------------------------------------------- firmware images

/// An entry of the directory is an image exactly where it is a file whose extension is bin, in any case.
pub proof fn lemma_image(e: DirEntry)
    ensures
        menu::is_firmware(e) <==> e.is_file && (e.extension matches Some(x) && x@.len() == 3 && (
        x@[0] == 'b' || x@[0] == 'B') && (x@[1] == 'i' || x@[1] == 'I') && (x@[2] == 'n' || x@[2]
            == 'N')),
{
    reveal_strlit("bin");
    match e.extension {
        Some(x) => {
            let l = text::lower_all(x@);
            let b = text::lower_all("bin"@);
            assert(b =~= seq!['b', 'i', 'n']);
            if l == b {
                assert(l.len() == 3);
                assert(l[0] == 'b' && l[1] == 'i' && l[2] == 'n');
            }
            if x@.len() == 3 && (x@[0] == 'b' || x@[0] == 'B') && (x@[1] == 'i' || x@[1] == 'I') && (
            x@[2] == 'n' || x@[2] == 'N') {
                assert(l =~= b);
            }
        },
        None => {},
    }
}

/// Every image of the directory is found and nothing else: those of two lists of entries one behind the
/// other are those of the first and then those of the second.
pub proof fn lemma_images_found(a: Seq<DirEntry>, b: Seq<DirEntry>, one: DirEntry)
    ensures
        menu::firmware_in(a + b) == menu::firmware_in(a) + menu::firmware_in(b),
        menu::firmware_in(seq![one]) == (if menu::is_firmware(one) {
            seq![one.path@]
        } else {
            Seq::empty()
        }),
    decreases b.len(),
{
    let single = seq![one];
    assert(single.drop_last() =~= Seq::<DirEntry>::empty());
    assert(menu::firmware_in(single.drop_last()) == Seq::<Seq<char>>::empty());
    assert(menu::firmware_in(single) =~= if menu::is_firmware(one) {
        seq![one.path@]
    } else {
        Seq::empty()
    });
    if b.len() == 0 {
        assert(a + b =~= a);
        assert(menu::firmware_in(a) + menu::firmware_in(b) =~= menu::firmware_in(a));
    } else {
        let init = b.drop_last();
        lemma_images_found(a, init, one);
        assert((a + b).drop_last() =~= a + init);
        assert((a + b).last() == b.last());
        assert(menu::firmware_in(a + b) =~= menu::firmware_in(a) + menu::firmware_in(b));
    }
}

/// A sorted list holds every path as often as the list that it comes from, and each path in it is no
/// later in the order than those behind it.
pub proof fn lemma_arranged(v: Seq<Seq<char>>, r: Seq<Seq<char>>, p: Seq<char>, i: int, j: int)
    requires
        listing::arranged(v, r),
    ensures
        r.len() == v.len(),
        v.to_multiset().count(p) == r.to_multiset().count(p),
        v.contains(p) <==> r.contains(p),
        0 <= i <= j < r.len() ==> paths::path_le(r[i], r[j]),
{
    v.to_multiset_ensures();
    r.to_multiset_ensures();
    assert(v.to_multiset().len() == r.to_multiset().len());
    assert(v.contains(p) <==> v.to_multiset().count(p) > 0);
    assert(r.contains(p) <==> r.to_multiset().count(p) > 0);
}

/// After a refresh an image is chosen exactly where the one chosen before is still listed, or where the
/// user has decided on none and one alone is listed; the list is what was found.
pub proof fn lemma_refresh_choice(m: MenuV, list: Seq<Seq<char>>, keep: Option<Seq<char>>)
    ensures
        ({
            let r = menu::with_firmware(m, list, keep);
            let listed = keep matches Some(k) && paths::path_at(list, k) is Some;
            &&& r == MenuV { fw: list, fw_sel: r.fw_sel, ..m }
            &&& listed ==> r.fw_sel == paths::path_at(list, keep->0)
            &&& !listed && !m.fw_decided && list.len() == 1 ==> r.fw_sel == Some(0int)
            &&& !listed && (m.fw_decided || list.len() != 1) ==> r.fw_sel is None
        }),
{
}

/// A path is listed where a path of the list is the same, and the first such counts.
pub proof fn lemma_first_same_path(list: Seq<Seq<char>>, path: Seq<char>, k: int)
    requires
        0 <= k <= list.len(),
        forall|j: int| 0 <= j < k ==> !paths::same_path(#[trigger] list[j], path),
    ensures
        k < list.len() && paths::same_path(list[k], path) ==> paths::path_at(list, path) == Some(k),
        k == list.len() ==> paths::path_at(list, path) is None,
{
    paths::lemma_path_at(list, path);
    match paths::path_at(list, path) {
        Some(i) => {
            if i < k {
                assert(!paths::same_path(list[i], path));
            }
        },
        None => {},
    }
}

/// What was chosen is the entry with the chosen number, of adapters and of images; a number beyond the
/// list chooses nothing.
pub proof fn lemma_chosen(m: MenuV, i: int)
    ensures
        m.nic_sel == Some(i) && 0 <= i < m.nics.len() ==> menu::chosen_nic(m) == Some(m.nics[i]),
        m.nic_sel == Some(i) && i >= m.nics.len() ==> menu::chosen_nic(m) is None,
        m.nic_sel is None ==> menu::chosen_nic(m) is None,
        m.fw_sel == Some(i) && 0 <= i < m.fw.len() ==> menu::chosen_firmware(m) == Some(m.fw[i]),
        m.fw_sel == Some(i) && i >= m.fw.len() ==> menu::chosen_firmware(m) is None,
        m.fw_sel is None ==> menu::chosen_firmware(m) is None,
{
}

// ---------------------------------------------------------------- adapters

/// After a refresh the adapter with the name of the one chosen before is chosen, the first of them, and
/// none where none has that name or none was chosen.
pub proof fn lemma_refresh_adapter(m: MenuV, nics: Seq<NicV>, k: int)
    requires
        0 <= k <= nics.len(),
        menu::chosen_nic(m) matches Some(n) ==> forall|j: int|
            0 <= j < k ==> (#[trigger] nics[j]).name != n.name,
    ensures
        ({
            let r = menu::with_nics(m, nics);
            &&& r == MenuV { nics, nic_sel: r.nic_sel, ..m }
            &&& menu::chosen_nic(m) is None ==> r.nic_sel is None
            &&& menu::chosen_nic(m) matches Some(n) ==> {
                &&& k < nics.len() && nics[k].name == n.name ==> r.nic_sel == Some(k)
                &&& k == nics.len() ==> r.nic_sel is None
            }
        }),
{
    match menu::chosen_nic(m) {
        Some(n) => {
            lifecycle_laws::lemma_first_of_name(nics, n.name, k);
        },
        None => {},
    }
}

/// A change of the adapters is noticed where their number differs or one of them has a name that none had
/// before, and only there.
pub proof fn lemma_adapters_changed(before: Seq<NicV>, now: Seq<NicV>)
    ensures
        menu::nics_changed(before, now) <==> before.len() != now.len() || exists|i: int|
            0 <= i < now.len() && forall|j: int|
                0 <= j < before.len() ==> (#[trigger] before[j]).name != (#[trigger] now[i]).name,
{
    if menu::nics_changed(before, now) && before.len() == now.len() {
        let i = choose|i: int|
            0 <= i < now.len() && elevated::nic_named(before, (#[trigger] now[i]).name) is None;
        elevated::lemma_nic_named(before, now[i].name);
        assert forall|j: int| 0 <= j < before.len() implies (#[trigger] before[j]).name
            != now[i].name by {}
    }
    if exists|i: int|
        0 <= i < now.len() && forall|j: int|
            0 <= j < before.len() ==> (#[trigger] before[j]).name != (#[trigger] now[i]).name {
        let i = choose|i: int|
            0 <= i < now.len() && forall|j: int|
                0 <= j < before.len() ==> (#[trigger] before[j]).name != (#[trigger] now[i]).name;
        elevated::lemma_nic_named(before, now[i].name);
        match elevated::nic_named(before, now[i].name) {
            Some(j) => {
                assert(before[j].name != now[i].name);
            },
            None => {},
        }
    }
}

/// An adapter is refused where its name holds a quote or a backslash, and only there.
pub proof fn lemma_refused_name(name: Seq<char>)
    ensures
        menu::bad_name(name) <==> exists|i: int|
            0 <= i < name.len() && (#[trigger] name[i] == '"' || name[i] == '\\'),
{
    if name.contains('"') {
        let i = choose|i: int| 0 <= i < name.len() && name[i] == '"';
        assert(name[i] == '"');
    }
    if name.contains('\\') {
        let i = choose|i: int| 0 <= i < name.len() && name[i] == '\\';
        assert(name[i] == '\\');
    }
    if exists|i: int| 0 <= i < name.len() && (#[trigger] name[i] == '"' || name[i] == '\\') {
        let i = choose|i: int|
            0 <= i < name.len() && (#[trigger] name[i] == '"' || name[i] == '\\');
        if name[i] == '"' {
            assert(name.contains('"'));
        } else {
            assert(name.contains('\\'));
        }
    }
}

// ---------------------------------------------------------------- numbers and paths

/// A number from 1 to the length of the list picks the entry that it numbers, and anything else picks
/// nothing; white space round it makes no difference.
pub proof fn lemma_pick(line: Seq<char>, n: nat)
    requires
        n <= usize::MAX,
    ensures
        match text::number_of(text::trim(line)) {
            Some(v) => if 1 <= v <= n {
                menu::pick(line, n) == Some(v - 1)
            } else {
                menu::pick(line, n) is None
            },
            None => menu::pick(line, n) is None,
        },
{
}

/// A path that was typed in loses the quotes round it, and nothing else.
pub proof fn lemma_typed_path(a: nat, path: Seq<char>, b: nat)
    requires
        path.len() > 0 ==> path[0] != '"' && path.last() != '"',
    ensures
        ({
            let line = quotes(a) + path + quotes(b);
            menu::unquoted_end(menu::unquoted_start(line)) == path
        }),
    decreases a + b,
{
    let line = quotes(a) + path + quotes(b);
    if path.len() == 0 {
        assert(line =~= quotes(a + b));
        lemma_only_quotes(a + b);
        assert(path =~= Seq::<char>::empty());
    } else {
        lemma_strip_start(a, path + quotes(b));
        assert(quotes(a) + (path + quotes(b)) =~= line);
        lemma_strip_end(path, b);
    }
}

/// So many quotes.
pub open spec fn quotes(n: nat) -> Seq<char> {
    Seq::new(n, |i: int| '"')
}

proof fn lemma_only_quotes(n: nat)
    ensures
        menu::unquoted_start(quotes(n)) == Seq::<char>::empty(),
        menu::unquoted_end(Seq::<char>::empty()) == Seq::<char>::empty(),
    decreases n,
{
    if n > 0 {
        assert(quotes(n).drop_first() =~= quotes((n - 1) as nat));
        lemma_only_quotes((n - 1) as nat);
    } else {
        assert(quotes(n) =~= Seq::<char>::empty());
    }
}

proof fn lemma_strip_start(n: nat, s: Seq<char>)
    requires
        s.len() > 0,
        s[0] != '"',
    ensures
        menu::unquoted_start(quotes(n) + s) == s,
    decreases n,
{
    if n > 0 {
        assert((quotes(n) + s).drop_first() =~= quotes((n - 1) as nat) + s);
        lemma_strip_start((n - 1) as nat, s);
    } else {
        assert(quotes(n) + s =~= s);
    }
}

proof fn lemma_strip_end(s: Seq<char>, n: nat)
    requires
        s.len() > 0,
        s.last() != '"',
    ensures
        menu::unquoted_end(s + quotes(n)) == s,
    decreases n,
{
    if n > 0 {
        assert((s + quotes(n)).drop_last() =~= s + quotes((n - 1) as nat));
        lemma_strip_end(s, (n - 1) as nat);
    } else {
        assert(s + quotes(n) =~= s);
    }
}

// ---------------------------------------------------------------- arguments

/// The value of a flag is what stands behind its first occurrence; a flag that does not occur, or occurs
/// first at the end, has none.
pub proof fn lemma_flag_value(
    before: Seq<Seq<char>>,
    flag: Seq<char>,
    value: Seq<char>,
    behind: Seq<Seq<char>>,
)
    requires
        forall|i: int| 0 <= i < before.len() ==> #[trigger] before[i] != flag,
    ensures
        elevated::value_of(before + seq![flag, value] + behind, flag) == Some(value),
        elevated::value_of(before.push(flag), flag) is None,
        elevated::value_of(before, flag) is None,
        elevated::position_of(before, flag) is None,
        elevated::position_of(before.push(flag), flag) is Some,
{
    let n = before.len() as int;
    let a = before + seq![flag, value] + behind;
    elevated::lemma_position(a, flag);
    assert(a[n] == flag && a[n + 1] == value);
    assert forall|i: int| 0 <= i < n implies #[trigger] a[i] != flag by {
        assert(a[i] == before[i]);
    }
    let b = before.push(flag);
    elevated::lemma_position(b, flag);
    assert(b[n] == flag);
    assert forall|i: int| 0 <= i < n implies #[trigger] b[i] != flag by {
        assert(b[i] == before[i]);
    }
    elevated::lemma_position(before, flag);
}

/// Name servers are read from a list with commas, in order, without the white space round them and without
/// empty ones.
pub proof fn lemma_listed_servers(a: Seq<Seq<char>>, b: Seq<Seq<char>>, one: Seq<char>)
    ensures
        elevated::dns_list(a + b) == elevated::dns_list(a) + elevated::dns_list(b),
        elevated::dns_list(seq![one]) == (if text::trim(one).len() > 0 {
            seq![text::trim(one)]
        } else {
            Seq::empty()
        }),
    decreases b.len(),
{
    let single = seq![one];
    assert(single.drop_last() =~= Seq::<Seq<char>>::empty());
    assert(elevated::dns_list(single.drop_last()) == Seq::<Seq<char>>::empty());
    assert(elevated::dns_list(single) =~= if text::trim(one).len() > 0 {
        seq![text::trim(one)]
    } else {
        Seq::empty()
    });
    if b.len() == 0 {
        assert(a + b =~= a);
        assert(elevated::dns_list(a) + elevated::dns_list(b) =~= elevated::dns_list(a));
    } else {
        let init = b.drop_last();
        lemma_listed_servers(a, init, one);
        assert((a + b).drop_last() =~= a + init);
        assert((a + b).last() == b.last());
        assert(elevated::dns_list(a + b) =~= elevated::dns_list(a) + elevated::dns_list(b));
    }
}

/// A helper process that is to set an adapter up is told its name and the result file, and sets up that
/// adapter.
pub proof fn lemma_helper_sets_up(exe: Seq<char>, name: Seq<char>, file: Seq<char>)
    requires
        name.len() > 0,
        !name.contains('"'),
        file.len() > 0,
        !file.contains('"'),
        !elevated_laws::is_flag(exe),
        !elevated_laws::is_flag(name),
        !elevated_laws::is_flag(file),
    ensures
        ({
            let line = elevated::params_of(
                "set"@,
                seq![elevated::quoted_value("--nic"@, name)],
                file,
            );
            let args = seq![exe] + nic::tokens(line);
            &&& args == seq![exe, "--elevated-op"@, "set"@, "--nic"@, name, "--result"@, file]
            &&& elevated::value_of(args, "--elevated-op"@) == Some("set"@)
            &&& elevated::plan_of("set"@, args) == HelperPlanV::SetUp(name)
        }),
{
    let line = elevated::params_of("set"@, seq![elevated::quoted_value("--nic"@, name)], file);
    let q = elevated::quoted_value("--nic"@, name);
    reveal_strlit("--elevated-op ");
    reveal_strlit("--elevated-op");
    reveal_strlit("set");
    reveal_strlit("--nic");
    reveal_strlit(" --result \"");
    reveal_strlit("--result");
    reveal_strlit("--dhcp");
    reveal_strlit("--ip");
    reveal_strlit("--mask");
    reveal_strlit("--gateway");
    reveal_strlit("--dns");
    reveal_strlit(" \"");
    reveal_strlit("\"");
    reveal_strlit(" ");
    let sp = seq![' '];
    let r = elevated::quoted_value("--result"@, file);
    nic::lemma_word("--elevated-op"@);
    nic::lemma_word("set"@);
    elevated_laws::lemma_quoted_value("--nic"@, name);
    elevated_laws::lemma_quoted_value("--result"@, file);
    nic::lemma_tokens_split(q, r);
    nic::lemma_tokens_split("set"@, q + sp + r);
    nic::lemma_tokens_split("--elevated-op"@, "set"@ + sp + (q + sp + r));
    let single = seq![q];
    assert(single.drop_last() =~= Seq::<Seq<char>>::empty());
    assert(elevated::spaced(single.drop_last()) =~= Seq::<char>::empty());
    assert(elevated::spaced(single) =~= " "@ + q);
    assert(line =~= "--elevated-op"@ + sp + ("set"@ + sp + (q + sp + r)));
    let args = seq![exe] + nic::tokens(line);
    assert(args =~= seq![exe, "--elevated-op"@, "set"@, "--nic"@, name, "--result"@, file]);
    assert("set"@.len() == 3 && "--nic"@.len() == 5 && "--result"@.len() == 8
        && "--elevated-op"@.len() == 13);
    elevated::lemma_position(args, "--elevated-op"@);
    elevated::lemma_position(args, "--nic"@);
    elevated::lemma_position(args, "--result"@);
    assert(args[0] == exe && args[1] == "--elevated-op"@ && args[2] == "set"@ && args[3]
        == "--nic"@ && args[4] == name && args[5] == "--result"@ && args[6] == file);
}

// ---------------------------------------------------------------- choices

/// What a line chooses in the main menu: 1 the adapter, 2 the image, 3 the start, 4 the help and 0 the end;
/// white space round the digit makes no difference, and anything else is no choice.
pub proof fn lemma_menu_choice(line: Seq<char>)
    ensures
        ({
            let t = text::trim(line);
            &&& menu::choice_of(line) == MenuChoice::Nic <==> t == seq!['1']
            &&& menu::choice_of(line) == MenuChoice::Firmware <==> t == seq!['2']
            &&& menu::choice_of(line) == MenuChoice::Start <==> t == seq!['3']
            &&& menu::choice_of(line) == MenuChoice::Help <==> t == seq!['4']
            &&& menu::choice_of(line) == MenuChoice::Quit <==> t == seq!['0']
        }),
{
    lemma_digits();
}

proof fn lemma_digits()
    ensures
        "0"@ == seq!['0'],
        "1"@ == seq!['1'],
        "2"@ == seq!['2'],
        "3"@ == seq!['3'],
        "4"@ == seq!['4'],
        seq!['0'] != seq!['1'],
        seq!['0'] != seq!['2'],
        seq!['0'] != seq!['3'],
        seq!['0'] != seq!['4'],
        seq!['1'] != seq!['2'],
        seq!['1'] != seq!['3'],
        seq!['1'] != seq!['4'],
        seq!['2'] != seq!['3'],
        seq!['2'] != seq!['4'],
        seq!['3'] != seq!['4'],
{
    reveal_strlit("0");
    reveal_strlit("1");
    reveal_strlit("2");
    reveal_strlit("3");
    reveal_strlit("4");
    assert("0"@ =~= seq!['0']);
    assert("1"@ =~= seq!['1']);
    assert("2"@ =~= seq!['2']);
    assert("3"@ =~= seq!['3']);
    assert("4"@ =~= seq!['4']);
    assert(seq!['0'][0] == '0' && seq!['1'][0] == '1' && seq!['2'][0] == '2' && seq!['3'][0] == '3'
        && seq!['4'][0] == '4');
}

/// A session can start exactly where an adapter and an image are chosen and the name of the adapter holds
/// neither a quote nor a backslash, and then with these two. Where it cannot, the first of the three that
/// fails is told.
pub proof fn lemma_start_check(m: MenuV, r: StartCheck)
    requires
        menu::start_checked(m, r),
    ensures
        ({
            let nic = m.nic_sel matches Some(i) && 0 <= i < m.nics.len();
            let fw = m.fw_sel matches Some(i) && 0 <= i < m.fw.len();
            let name = m.nics[m.nic_sel->0].name;
            let bad = name.contains('"') || name.contains('\\');
            &&& r == StartCheck::NoNic <==> !nic
            &&& r == StartCheck::NoFirmware <==> nic && !fw
            &&& r == StartCheck::BadName <==> nic && fw && bad
            &&& r is Ready <==> nic && fw && !bad
            &&& r matches StartCheck::Ready(n, f) ==> m.nic_sel == Some(n as int) && m.fw_sel
                == Some(f as int)
        }),
{
}

/// A number of the list of adapters chooses that adapter and leaves everything else; 0 leaves all as it is
/// without a complaint, and anything else with one.
pub proof fn lemma_adapter_selected(m: MenuV, line: Seq<char>)
    requires
        m.nics.len() <= usize::MAX,
    ensures
        ({
            let (after, complaint) = menu::nic_selected(m, line);
            let picked = text::number_of(text::trim(line)) matches Some(v) && 1 <= v <= m.nics.len();
            &&& picked ==> after == (MenuV {
                nic_sel: Some(text::number_of(text::trim(line))->0 - 1),
                ..m
            }) && complaint is None
            &&& !picked ==> after == m && (complaint is None <==> text::trim(line) == seq!['0'])
        }),
{
    lemma_digits();
    lemma_pick(line, m.nics.len());
}

/// A number of the list of images chooses that image for good; the two numbers behind the list download one
/// or type one in; 0 goes back, and anything else is complained about. Only the first changes the menu.
pub proof fn lemma_image_selected(m: MenuV, line: Seq<char>, after: MenuV, r: FirmwareChoice)
    requires
        m.fw.len() + 2 <= usize::MAX,
        menu::firmware_selected(m, line, after, r),
    ensures
        ({
            let n = m.fw.len();
            match text::number_of(text::trim(line)) {
                Some(v) => {
                    &&& 1 <= v <= n ==> r is Picked && after == (MenuV {
                        fw_sel: Some(v - 1),
                        fw_decided: true,
                        ..m
                    })
                    &&& v == n + 1 ==> r is Cloud && after == m
                    &&& v == n + 2 ==> r is Manual && after == m
                    &&& v == 0 || v > n + 2 ==> after == m && (r is Back || r is Invalid)
                },
                None => r is Invalid && after == m,
            }
        }),
        r is Back <==> text::trim(line) == seq!['0'],
{
    lemma_digits();
    lemma_pick(line, m.fw.len() + 2);
    text_laws::lemma_number_grows(seq!['0'], '0');
}

/// Where there is no image: 1 downloads one, 2 lists the directory again, 3 types a path in and 0 goes
/// back; anything else is complained about.
pub proof fn lemma_bare_choice(line: Seq<char>, r: FirmwareChoice)
    requires
        menu::bare_choice(line, r),
    ensures
        ({
            let t = text::trim(line);
            &&& r is Cloud <==> t == seq!['1']
            &&& r is Rescan <==> t == seq!['2']
            &&& r is Manual <==> t == seq!['3']
            &&& r is Back <==> t == seq!['0']
            &&& !(r is Picked)
        }),
{
    lemma_digits();
}

/// The program runs an elevated operation where it is told one; the flags of one without the rest are
/// refused; the self test runs where it is asked for; and else the menu is shown.
pub proof fn lemma_startup(args: Seq<Seq<char>>, r: Startup)
    requires
        elevated::starts(args, r),
    ensures
        ({
            let op = elevated::value_of(args, "--elevated-op"@);
            let flags = elevated::position_of(args, "--elevated-op"@) is Some
                || elevated::position_of(args, "--result"@) is Some;
            &&& r is Elevated <==> op is Some
            &&& r matches Startup::Elevated(s) ==> op == Some(s@)
            &&& r is BadArguments <==> op is None && flags
            &&& r is SelfTest <==> !flags && elevated::position_of(args, "--selftest"@) is Some
            &&& r is Menu <==> !flags && elevated::position_of(args, "--selftest"@) is None
        }),
{
}

/// A refresh shows every image that was found, and besides these at most the one chosen before, which is
/// shown where it is a file.
pub proof fn lemma_found_is_shown(
    list: Seq<Seq<char>>,
    keep: Option<Seq<char>>,
    is_file: bool,
    shown: Seq<Seq<char>>,
    p: Seq<char>,
)
    requires
        menu::listed_with(list, keep, is_file, shown),
    ensures
        list.contains(p) ==> shown.contains(p),
        shown.contains(p) ==> list.contains(p) || (keep == Some(p) && is_file),
        keep matches Some(k) && is_file ==> paths::path_at(shown, keep->0) is Some,
{
    match keep {
        Some(k) => {
            paths::lemma_path_at(list, k);
            paths::lemma_path_at(shown, k);
            if is_file && paths::path_at(list, k) is None {
                let all = list.push(k);
                lemma_arranged(all, shown, p, 0, 0);
                lemma_arranged(all, shown, k, 0, 0);
                if list.contains(p) {
                    let i = choose|i: int| 0 <= i < list.len() && list[i] == p;
                    assert(all[i] == p);
                }
                assert(all[list.len() as int] == k);
                assert(all.contains(k));
                let j = choose|j: int| 0 <= j < shown.len() && shown[j] == k;
                assert(paths::same_path(shown[j], k));
                if all.contains(p) && !list.contains(p) {
                    let i = choose|i: int| 0 <= i < all.len() && all[i] == p;
                    if i < list.len() {
                        assert(list[i] == p);
                    }
                }
            }
        },
        None => {},
    }
}

} // verus!
