//! The main menu: what is chosen, and what the lines of input mean.

use vstd::prelude::*;
use vstd::string::*;

use crate::elevated;
use crate::listing;
use crate::nic;
use crate::nic::{NicInfo, NicV};
use crate::paths;
use crate::status;
use crate::text;

verus! {

// ---------------------------------------------------------------- files

/// An entry of a directory.
pub struct DirEntry {
    pub path: String,
    pub is_file: bool,
    /// What follows the last dot of its name.
    pub extension: Option<String>,
}

/// A firmware image: a file whose extension is `bin`, whatever its case.
pub open spec fn is_firmware(e: DirEntry) -> bool {
    e.is_file && (e.extension matches Some(x) && text::same_letters(x@, "bin"@))
}

/// The paths of the firmware images among some entries, in order.
pub open spec fn firmware_in(v: Seq<DirEntry>) -> Seq<Seq<char>>
    decreases v.len(),
{
    if v.len() == 0 {
        Seq::empty()
    } else {
        let before = firmware_in(v.drop_last());
        if is_firmware(v.last()) {
            before.push(v.last().path@)
        } else {
            before
        }
    }
}

/// The firmware images among the entries of a directory, in the order of their paths.
pub fn scan_bin_files(entries: &Vec<DirEntry>) -> (r: Vec<String>)
    ensures
        listing::arranged(firmware_in(entries@), text::views(r@)),
{
    let mut out: Vec<String> = Vec::new();
    let mut i: usize = 0;
    assert(text::views(out@) =~= firmware_in(entries@.take(0)));
    while i < entries.len()
        invariant
            i <= entries@.len(),
            text::views(out@) == firmware_in(entries@.take(i as int)),
        decreases entries@.len() - i,
    {
        let e: &DirEntry = &entries[i];
        let ghost before = text::views(out@);
        proof {
            assert(entries@.take(i + 1).drop_last() =~= entries@.take(i as int));
            assert(entries@.take(i + 1).last() == *e);
        }
        let wanted: bool = match &e.extension {
            Some(x) => e.is_file && text::eq_ignore_ascii_case(x.as_str(), "bin"),
            None => false,
        };
        if wanted {
            let p: String = e.path.clone();
            let ghost pv = p@;
            out.push(p);
            assert(text::views(out@) =~= before.push(pv));
        }
        i = i + 1;
    }
    assert(entries@.take(i as int) =~= entries@);
    listing::sort_paths(&out)
}

/// The only candidate is chosen by itself.
pub open spec fn sole(n: nat) -> Option<int> {
    if n == 1 {
        Some(0int)
    } else {
        None
    }
}

/// The only candidate is chosen by itself.
pub fn auto_select(candidates: usize) -> (r: Option<usize>)
    ensures
        choice_view(r) == sole(candidates as nat),
{
    if candidates == 1 {
        Some(0)
    } else {
        None
    }
}

/// What an optional number says.
pub open spec fn choice_view(c: Option<usize>) -> Option<int> {
    match c {
        Some(i) => Some(i as int),
        None => None,
    }
}

// ---------------------------------------------------------------- what is chosen

/// What there is to choose from, and what is chosen.
pub struct MenuState {
    pub nics: Vec<NicInfo>,
    pub nic_sel: Option<usize>,
    /// Paths of firmware images.
    pub fw_candidates: Vec<String>,
    pub fw_sel: Option<usize>,
    /// The user has chosen an image, so that none is chosen by itself any more.
    pub fw_decided: bool,
}

/// What the menu holds.
pub struct MenuV {
    pub nics: Seq<NicV>,
    pub nic_sel: Option<int>,
    pub fw: Seq<Seq<char>>,
    pub fw_sel: Option<int>,
    pub fw_decided: bool,
}

impl View for MenuState {
    type V = MenuV;

    open spec fn view(&self) -> MenuV {
        MenuV {
            nics: nic::nic_views(self.nics@),
            nic_sel: choice_view(self.nic_sel),
            fw: text::views(self.fw_candidates@),
            fw_sel: choice_view(self.fw_sel),
            fw_decided: self.fw_decided,
        }
    }
}

/// The adapter that is chosen.
pub open spec fn chosen_nic(m: MenuV) -> Option<NicV> {
    match m.nic_sel {
        Some(i) => if 0 <= i < m.nics.len() {
            Some(m.nics[i])
        } else {
            None
        },
        None => None,
    }
}

/// The path that is chosen.
pub open spec fn chosen_firmware(m: MenuV) -> Option<Seq<char>> {
    match m.fw_sel {
        Some(i) => if 0 <= i < m.fw.len() {
            Some(m.fw[i])
        } else {
            None
        },
        None => None,
    }
}

/// The adapters have changed: there are more or fewer, or one with a new name.
pub open spec fn nics_changed(before: Seq<NicV>, now: Seq<NicV>) -> bool {
    ||| before.len() != now.len()
    ||| exists|i: int|
        0 <= i < now.len() && elevated::nic_named(before, (#[trigger] now[i]).name) is None
}

/// The adapters were listed anew: the chosen one stays chosen where there is one of its name.
pub open spec fn with_nics(m: MenuV, nics: Seq<NicV>) -> MenuV {
    MenuV {
        nics,
        nic_sel: match chosen_nic(m) {
            Some(n) => elevated::nic_named(nics, n.name),
            None => None,
        },
        ..m
    }
}

/// The files were listed anew: `keep` stays chosen where it is in the list. Where it is not, or nothing
/// was chosen, a sole candidate is chosen by itself, unless the user has chosen an image before: that
/// choice is never replaced.
pub open spec fn with_firmware(m: MenuV, list: Seq<Seq<char>>, keep: Option<Seq<char>>) -> MenuV {
    let kept = match keep {
        Some(k) => paths::path_at(list, k),
        None => None,
    };
    MenuV {
        fw: list,
        fw_sel: if kept is Some || m.fw_decided {
            kept
        } else {
            sole(list.len())
        },
        ..m
    }
}

/// `shown` is the list with the path `keep`, which is added at its place where it is a file and not in
/// the list.
pub open spec fn listed_with(
    list: Seq<Seq<char>>,
    keep: Option<Seq<char>>,
    is_file: bool,
    shown: Seq<Seq<char>>,
) -> bool {
    match keep {
        Some(k) => if is_file && paths::path_at(list, k) is None {
            listing::arranged(list.push(k), shown)
        } else {
            shown == list
        },
        None => shown == list,
    }
}

/// A path that is a file, or was listed before, is listed.
proof fn lemma_listed(list: Seq<Seq<char>>, k: Seq<char>, is_file: bool, shown: Seq<Seq<char>>)
    requires
        listed_with(list, Some(k), is_file, shown),
        is_file || paths::path_at(list, k) is Some,
    ensures
        paths::path_at(shown, k) matches Some(i) && 0 <= i < shown.len() && paths::same_path(
            shown[i],
            k,
        ),
{
    paths::lemma_path_at(list, k);
    paths::lemma_path_at(shown, k);
    if is_file && paths::path_at(list, k) is None {
        let more = list.push(k);
        assert(more.last() == k);
        assert(more.contains(k));
        more.to_multiset_ensures();
        shown.to_multiset_ensures();
        assert(more.to_multiset().count(k) > 0);
        let j = choose|j: int| 0 <= j < shown.len() && shown[j] == k;
        assert(paths::same_path(shown[j], k));
    }
}

/// The list with the path `keep`, which is added at its place where it is a file and not in the list.
fn add_kept(list: Vec<String>, keep: &Option<String>, is_file: bool) -> (r: Vec<String>)
    ensures
        listed_with(
            text::views(list@),
            crate::tftp::text_view(*keep),
            is_file,
            text::views(r@),
        ),
{
    match keep {
        Some(k) => {
            if is_file && paths::find_path(&list, k.as_str()).is_none() {
                let ghost before = text::views(list@);
                let p: String = k.clone();
                let ghost pv = p@;
                let mut more: Vec<String> = list;
                more.push(p);
                assert(text::views(more@) =~= before.push(pv));
                return listing::sort_paths(&more);
            }
        },
        None => {},
    }
    list
}

impl MenuState {
    /// Nothing to choose from yet.
    pub fn new() -> (r: Self)
        ensures
            r@ == (MenuV {
                nics: Seq::empty(),
                nic_sel: None,
                fw: Seq::empty(),
                fw_sel: None,
                fw_decided: false,
            }),
    {
        let r = MenuState {
            nics: Vec::new(),
            nic_sel: None,
            fw_candidates: Vec::new(),
            fw_sel: None,
            fw_decided: false,
        };
        assert(r@.nics =~= Seq::<NicV>::empty());
        assert(r@.fw =~= Seq::<Seq<char>>::empty());
        r
    }

    /// Number of the adapter that is chosen.
    pub fn nic_choice(&self) -> (r: Option<usize>)
        ensures
            match r {
                Some(i) => i < self.nics@.len() && self@.nic_sel == Some(i as int)
                    && chosen_nic(self@) == Some(self.nics@[i as int]@),
                None => chosen_nic(self@) is None,
            },
    {
        match self.nic_sel {
            Some(i) => if i < self.nics.len() {
                Some(i)
            } else {
                None
            },
            None => None,
        }
    }

    /// Number of the path that is chosen.
    pub fn firmware_choice(&self) -> (r: Option<usize>)
        ensures
            match r {
                Some(i) => i < self.fw_candidates@.len() && self@.fw_sel == Some(i as int)
                    && chosen_firmware(self@) == Some(self.fw_candidates@[i as int]@),
                None => chosen_firmware(self@) is None,
            },
    {
        match self.fw_sel {
            Some(i) => if i < self.fw_candidates.len() {
                Some(i)
            } else {
                None
            },
            None => None,
        }
    }

    /// The path that is chosen.
    pub fn kept_firmware(&self) -> (r: Option<String>)
        ensures
            match r {
                Some(s) => chosen_firmware(self@) == Some(s@),
                None => chosen_firmware(self@) is None,
            },
    {
        match self.firmware_choice() {
            Some(i) => Some(self.fw_candidates[i].clone()),
            None => None,
        }
    }

    fn has_new_name(&self, nics: &Vec<NicInfo>) -> (r: bool)
        ensures
            r == exists|i: int|
                0 <= i < nics@.len() && elevated::nic_named(
                    self@.nics,
                    (#[trigger] nic::nic_views(nics@)[i]).name,
                ) is None,
    {
        let ghost nv = nic::nic_views(nics@);
        let mut i: usize = 0;
        while i < nics.len()
            invariant
                i <= nics@.len(),
                nv == nic::nic_views(nics@),
                forall|j: int|
                    0 <= j < i ==> elevated::nic_named(self@.nics, (#[trigger] nv[j]).name) is Some,
            decreases nics@.len() - i,
        {
            assert(nv[i as int] == nics@[i as int]@);
            if elevated::find_nic(&self.nics, nics[i].name.as_str()).is_none() {
                return true;
            }
            i = i + 1;
        }
        false
    }

    /// The adapters were listed anew. Gives a line for the log where they have changed.
    pub fn refresh_nics(&mut self, nics: Vec<NicInfo>) -> (r: Option<String>)
        ensures
            final(self)@ == with_nics(old(self)@, nic::nic_views(nics@)),
            if nics_changed(old(self)@.nics, nic::nic_views(nics@)) {
                r matches Some(s) && s@ == "网卡列表已更新（"@ + text::dec(nics@.len()) + " 个）"@
            } else {
                r is None
            },
    {
        let ghost nv = nic::nic_views(nics@);
        let changed: bool = nics.len() != self.nics.len() || self.has_new_name(&nics);
        let choice: Option<usize> = match self.nic_choice() {
            Some(i) => elevated::find_nic(&nics, self.nics[i].name.as_str()),
            None => None,
        };
        let count: usize = nics.len();
        self.nic_sel = choice;
        self.nics = nics;
        if changed {
            let mut s: String = "网卡列表已更新（".to_owned();
            text::push_dec(&mut s, count as u64);
            s.append(" 个）");
            Some(s)
        } else {
            None
        }
    }

    /// Whether a path was not among the candidates before.
    pub fn is_new(&self, path: &str) -> (r: bool)
        ensures
            r == (paths::path_at(self@.fw, path@) is None),
    {
        paths::find_path(&self.fw_candidates, path).is_none()
    }

    /// The files were listed anew. `is_file` tells whether the path that was chosen is still a file: it is
    /// kept in the list then, so that a file from elsewhere is not replaced by one from the directory. Where
    /// an image that the user has chosen is gone, no other takes its place by itself.
    pub fn refresh_firmware(&mut self, found: Vec<String>, is_file: bool)
        ensures
            listed_with(
                text::views(found@),
                chosen_firmware(old(self)@),
                is_file,
                final(self)@.fw,
            ),
            final(self)@ == with_firmware(
                old(self)@,
                final(self)@.fw,
                chosen_firmware(old(self)@),
            ),
    {
        let keep: Option<String> = self.kept_firmware();
        let list: Vec<String> = add_kept(found, &keep, is_file);
        let kept: Option<usize> = match &keep {
            Some(k) => paths::find_path(&list, k.as_str()),
            None => None,
        };
        self.fw_sel = if kept.is_some() || self.fw_decided {
            kept
        } else {
            auto_select(list.len())
        };
        self.fw_candidates = list;
    }

    /// A file is added to the list where it is not in it, and chosen.
    pub fn choose_path(&mut self, path: &str)
        ensures
            listed_with(old(self)@.fw, Some(path@), true, final(self)@.fw),
            final(self)@ == (MenuV {
                fw: final(self)@.fw,
                fw_sel: paths::path_at(final(self)@.fw, path@),
                fw_decided: true,
                ..old(self)@
            }),
            chosen_firmware(final(self)@) matches Some(p) && paths::same_path(p, path@),
    {
        let ghost before = self@.fw;
        let mut list: Vec<String> = Vec::new();
        std::mem::swap(&mut list, &mut self.fw_candidates);
        let keep: Option<String> = Some(path.to_owned());
        let list: Vec<String> = add_kept(list, &keep, true);
        self.fw_sel = paths::find_path(&list, path);
        self.fw_decided = true;
        proof {
            lemma_listed(before, path@, true, text::views(list@));
        }
        self.fw_candidates = list;
    }
}

/// The line about a firmware image that was not there before.
pub fn new_firmware_line(name: &str) -> (r: String)
    ensures
        r@ == "检测到新刷机包："@ + name@ + "（自动识别）"@,
{
    let mut s: String = "检测到新刷机包：".to_owned();
    s.append(name);
    s.append("（自动识别）");
    s
}

/// The warning that the adapters could not be listed; it is given once.
pub fn nic_list_failure(warned: bool, error: &str) -> (r: Option<String>)
    ensures
        if warned {
            r is None
        } else {
            r matches Some(s) && s@ == "网卡枚举失败："@ + error@
                + "。可能被安全软件拦截或系统异常；可尝试以管理员身份运行，或在安全软件中放行本程序后重试。"@
        },
{
    if warned {
        return None;
    }
    let mut s: String = "网卡枚举失败：".to_owned();
    s.append(error);
    s.append(
        "。可能被安全软件拦截或系统异常；可尝试以管理员身份运行，或在安全软件中放行本程序后重试。",
    );
    Some(s)
}

// ---------------------------------------------------------------- texts

/// The chosen adapter in the menu; `line` is the adapter on one line.
pub fn nic_text(line: Option<&str>) -> (r: String)
    ensures
        r@ == match line {
            Some(l) => l@,
            None => "（未选择，按 [1] 选择）"@,
        },
{
    match line {
        Some(l) => l.to_owned(),
        None => "（未选择，按 [1] 选择）".to_owned(),
    }
}

/// The chosen firmware image in the menu: its name and its size as text, or how to choose one of
/// `candidates`.
pub fn fw_text(chosen: Option<(&str, &str)>, candidates: usize) -> (r: String)
    ensures
        r@ == match chosen {
            Some(c) => c.0@ + "（自动识别，"@ + c.1@ + "）"@,
            None => if candidates == 0 {
                "（未选择，程序目录无 .bin，按 [2] 下载或放入）"@
            } else {
                "（未选择，程序目录有 "@ + text::dec(candidates as nat)
                    + " 个 .bin，按 [2] 选择）"@
            },
        },
{
    match chosen {
        Some(c) => {
            let mut s: String = c.0.to_owned();
            s.append("（自动识别，");
            s.append(c.1);
            s.append("）");
            s
        },
        None => {
            if candidates == 0 {
                return "（未选择，程序目录无 .bin，按 [2] 下载或放入）".to_owned();
            }
            let mut s: String = "（未选择，程序目录有 ".to_owned();
            text::push_dec(&mut s, candidates as u64);
            s.append(" 个 .bin，按 [2] 选择）");
            s
        },
    }
}

/// The lines that both forms of the menu share.
pub open spec fn menu_body(
    version: Seq<char>,
    dir: Seq<char>,
    nic: Seq<char>,
    fw: Seq<char>,
) -> Seq<char> {
    "小米路由器修复工具 (Rust v"@ + version + ") — 命令行版\n刷机包目录（自动识别 .bin）："@ + dir
        + "\n\n [1] 网卡    : "@ + nic + "\n [2] 刷机包  : "@ + fw
        + "\n [3] 开始刷机\n [4] 使用说明\n [0] 退出\n"@
}

/// The hint below the menu.
pub open spec fn menu_hint(candidates: nat, chosen: bool) -> Seq<char> {
    if candidates == 0 {
        "（提示：程序目录暂无刷机包，可在 [2] 从云端下载，或把 .bin 复制进程序目录后自动识别）\n\n"@
    } else if candidates > 1 && !chosen {
        "（提示：程序目录有 "@ + text::dec(candidates) + " 个刷机包，按 [2] 选择）\n\n"@
    } else {
        "\n"@
    }
}

/// The menu: on a terminal it is drawn anew, with the last log lines and a hint; elsewhere it follows
/// what was printed before.
pub open spec fn menu_screen(
    body: Seq<char>,
    logs: Seq<Seq<char>>,
    candidates: nat,
    chosen: bool,
    tty: bool,
) -> Seq<char> {
    if tty {
        "\x1b[2J\x1b[H"@ + body + (if logs.len() > 0 {
            "\n"@ + status::lines_text(logs, " "@)
        } else {
            Seq::empty()
        }) + "\n"@ + menu_hint(candidates, chosen)
    } else {
        "\n"@ + body
    }
}

fn push_body(out: &mut String, version: &str, dir: &str, nic: &str, fw: &str)
    ensures
        final(out)@ == old(out)@ + menu_body(version@, dir@, nic@, fw@),
{
    out.append("小米路由器修复工具 (Rust v");
    out.append(version);
    out.append(") — 命令行版\n刷机包目录（自动识别 .bin）：");
    out.append(dir);
    out.append("\n\n [1] 网卡    : ");
    out.append(nic);
    out.append("\n [2] 刷机包  : ");
    out.append(fw);
    out.append("\n [3] 开始刷机\n [4] 使用说明\n [0] 退出\n");
    assert(out@ =~= old(out)@ + menu_body(version@, dir@, nic@, fw@));
}

fn push_hint(out: &mut String, candidates: usize, chosen: bool)
    ensures
        final(out)@ == old(out)@ + menu_hint(candidates as nat, chosen),
{
    if candidates == 0 {
        out.append(
            "（提示：程序目录暂无刷机包，可在 [2] 从云端下载，或把 .bin 复制进程序目录后自动识别）\n\n",
        );
    } else if candidates > 1 && !chosen {
        out.append("（提示：程序目录有 ");
        text::push_dec(out, candidates as u64);
        out.append(" 个刷机包，按 [2] 选择）\n\n");
    } else {
        out.append("\n");
    }
    assert(out@ =~= old(out)@ + menu_hint(candidates as nat, chosen));
}

/// Draws the menu. `logs` are the last log lines, oldest first.
pub fn draw_menu(
    menu: &MenuState,
    version: &str,
    dir: &str,
    nic: &str,
    fw: &str,
    logs: &Vec<String>,
    tty: bool,
) -> (r: String)
    ensures
        r@ == menu_screen(
            menu_body(version@, dir@, nic@, fw@),
            text::views(logs@),
            menu@.fw.len(),
            menu@.fw_sel is Some,
            tty,
        ),
{
    if !tty {
        let mut out: String = "\n".to_owned();
        push_body(&mut out, version, dir, nic, fw);
        return out;
    }
    let mut out: String = "\x1b[2J\x1b[H".to_owned();
    push_body(&mut out, version, dir, nic, fw);
    let ghost drawn = out@;
    if logs.len() > 0 {
        out.append("\n");
        status::push_lines(&mut out, logs, " ");
        assert(out@ =~= drawn + ("\n"@ + status::lines_text(text::views(logs@), " "@)));
    } else {
        assert(out@ =~= drawn + Seq::<char>::empty());
    }
    out.append("\n");
    push_hint(&mut out, menu.fw_candidates.len(), menu.fw_sel.is_some());
    out
}

// ---------------------------------------------------------------- input

/// What is chosen in the main menu.
#[derive(Clone, Copy, PartialEq, Eq, Structural)]
pub enum MenuChoice {
    Nic,
    Firmware,
    Start,
    Help,
    Quit,
    Invalid,
}

/// What a line chooses in the main menu.
pub open spec fn choice_of(line: Seq<char>) -> MenuChoice {
    let t = text::trim(line);
    if t == "1"@ {
        MenuChoice::Nic
    } else if t == "2"@ {
        MenuChoice::Firmware
    } else if t == "3"@ {
        MenuChoice::Start
    } else if t == "4"@ {
        MenuChoice::Help
    } else if t == "0"@ {
        MenuChoice::Quit
    } else {
        MenuChoice::Invalid
    }
}

/// What a line of input means in the main menu.
pub fn menu_choice(line: &str) -> (r: MenuChoice)
    ensures
        ({
            let t = text::trim(line@);
            r == (if t == "1"@ {
                MenuChoice::Nic
            } else if t == "2"@ {
                MenuChoice::Firmware
            } else if t == "3"@ {
                MenuChoice::Start
            } else if t == "4"@ {
                MenuChoice::Help
            } else if t == "0"@ {
                MenuChoice::Quit
            } else {
                MenuChoice::Invalid
            })
        }),
        r == choice_of(line@),
{
    let t: String = text::trim_text(line);
    if text::same(t.as_str(), "1") {
        MenuChoice::Nic
    } else if text::same(t.as_str(), "2") {
        MenuChoice::Firmware
    } else if text::same(t.as_str(), "3") {
        MenuChoice::Start
    } else if text::same(t.as_str(), "4") {
        MenuChoice::Help
    } else if text::same(t.as_str(), "0") {
        MenuChoice::Quit
    } else {
        MenuChoice::Invalid
    }
}

/// Whether a session can start.
#[derive(Clone, Copy, PartialEq, Eq, Structural)]
pub enum StartCheck {
    /// With this adapter and this firmware image.
    Ready(usize, usize),
    NoNic,
    NoFirmware,
    /// The name of the adapter cannot stand in a command line.
    BadName,
}

/// The name of an adapter would spoil a command line.
pub open spec fn bad_name(name: Seq<char>) -> bool {
    name.contains('"') || name.contains('\\')
}

/// Whether a session can start from the menu, and why not: an adapter must be chosen, then an image, and
/// the name of the adapter must be one that can stand in a command line.
pub open spec fn start_checked(m: MenuV, r: StartCheck) -> bool {
    match r {
        StartCheck::Ready(n, f) => m.nic_sel == Some(n as int) && m.fw_sel == Some(f as int)
            && chosen_nic(m) is Some && chosen_firmware(m) is Some && !bad_name(
            chosen_nic(m)->0.name,
        ),
        StartCheck::NoNic => chosen_nic(m) is None,
        StartCheck::NoFirmware => chosen_nic(m) is Some && chosen_firmware(m) is None,
        StartCheck::BadName => chosen_nic(m) is Some && chosen_firmware(m) is Some && bad_name(
            chosen_nic(m)->0.name,
        ),
    }
}

/// Decides whether a session can start: an adapter and a firmware image are chosen, and the name of the
/// adapter can stand in a command line.
pub fn check_start(menu: &MenuState) -> (r: StartCheck)
    ensures
        match r {
            StartCheck::Ready(n, f) => {
                &&& n < menu.nics@.len() && chosen_nic(menu@) == Some(menu.nics@[n as int]@)
                &&& f < menu.fw_candidates@.len() && chosen_firmware(menu@) == Some(
                    menu.fw_candidates@[f as int]@,
                )
                &&& !bad_name(chosen_nic(menu@)->0.name)
            },
            StartCheck::NoNic => chosen_nic(menu@) is None,
            StartCheck::NoFirmware => chosen_nic(menu@) is Some && chosen_firmware(menu@) is None,
            StartCheck::BadName => chosen_nic(menu@) is Some && chosen_firmware(menu@) is Some
                && bad_name(chosen_nic(menu@)->0.name),
        },
        start_checked(menu@, r),
{
    match menu.nic_choice() {
        None => StartCheck::NoNic,
        Some(n) => match menu.firmware_choice() {
            None => StartCheck::NoFirmware,
            Some(f) => {
                if text::has_char(menu.nics[n].name.as_str(), '"') || text::has_char(
                    menu.nics[n].name.as_str(),
                    '\\',
                ) {
                    StartCheck::BadName
                } else {
                    StartCheck::Ready(n, f)
                }
            },
        },
    }
}

/// What is printed, and what is logged, where a session cannot start.
pub fn start_refusal(check: StartCheck) -> (r: Option<(&'static str, &'static str)>)
    ensures
        match check {
            StartCheck::Ready(_, _) => r is None,
            StartCheck::NoNic => r matches Some(m) && m.0@ == "网卡未选择，请按 [1] 选择。"@ && m.1@
                == m.0@,
            StartCheck::NoFirmware => r matches Some(m) && m.0@
                == "刷机包未选择，请按 [2] 选择（或把 .bin 复制进程序目录自动识别）。"@ && m.1@
                == m.0@,
            StartCheck::BadName => r matches Some(m) && m.0@
                == "网卡名包含特殊字符（\" 或 \\），无法安全配置。请在系统设置中重命名该网卡后重试。"@
                && m.1@ == "网卡名含特殊字符，已拒绝开始刷机。"@,
        },
{
    match check {
        StartCheck::Ready(_, _) => None,
        StartCheck::NoNic => Some(
            ("网卡未选择，请按 [1] 选择。", "网卡未选择，请按 [1] 选择。"),
        ),
        StartCheck::NoFirmware => Some(
            (
                "刷机包未选择，请按 [2] 选择（或把 .bin 复制进程序目录自动识别）。",
                "刷机包未选择，请按 [2] 选择（或把 .bin 复制进程序目录自动识别）。",
            ),
        ),
        StartCheck::BadName => Some(
            (
                "网卡名包含特殊字符（\" 或 \\），无法安全配置。请在系统设置中重命名该网卡后重试。",
                "网卡名含特殊字符，已拒绝开始刷机。",
            ),
        ),
    }
}

/// The number that a line gives, counted from 1, if it is one of `n`.
pub open spec fn pick(line: Seq<char>, n: nat) -> Option<int> {
    match text::number_up_to(text::trim(line), usize::MAX as nat) {
        Some(i) => if 1 <= i <= n {
            Some(i - 1)
        } else {
            None
        },
        None => None,
    }
}

/// The number that a line gives, counted from 1, if it is one of `n`.
pub fn pick_number(line: &str, n: usize) -> (r: Option<usize>)
    ensures
        choice_view(r) == pick(line@, n as nat),
        r matches Some(i) ==> i < n,
{
    let t: String = text::trim_text(line);
    match text::parse_up_to(t.as_str(), usize::MAX as u64) {
        Some(i) => if i >= 1 && i <= n as u64 {
            Some((i - 1) as usize)
        } else {
            None
        },
        None => None,
    }
}

/// What is said about a number that is not among `n`.
pub open spec fn invalid_number(n: nat) -> Seq<char> {
    " 无效编号，请重新输入（1-"@ + text::dec(n) + "）。"@
}

fn invalid_line(n: u64) -> (r: String)
    ensures
        r@ == invalid_number(n as nat),
{
    let mut s: String = " 无效编号，请重新输入（1-".to_owned();
    text::push_dec(&mut s, n);
    s.append("）。");
    s
}

/// The menu after a line that picks an adapter, and what is complained about.
pub open spec fn nic_selected(m: MenuV, line: Seq<char>) -> (MenuV, Option<Seq<char>>) {
    match pick(line, m.nics.len()) {
        Some(i) => (MenuV { nic_sel: Some(i), ..m }, None),
        None => (
            m,
            if text::trim(line) == "0"@ {
                None
            } else {
                Some(invalid_number(m.nics.len()))
            },
        ),
    }
}

/// Chooses an adapter by its number. Gives what is said about a line that is neither a number of an
/// adapter nor `0`.
pub fn select_nic(menu: &mut MenuState, line: &str) -> (r: Option<String>)
    ensures
        match pick(line@, old(menu)@.nics.len()) {
            Some(i) => final(menu)@ == (MenuV { nic_sel: Some(i), ..old(menu)@ }) && r is None,
            None => final(menu)@ == old(menu)@ && if text::trim(line@) == "0"@ {
                r is None
            } else {
                r matches Some(s) && s@ == invalid_number(old(menu)@.nics.len())
            },
        },
        (final(menu)@, crate::tftp::text_view(r)) == nic_selected(old(menu)@, line@),
{
    let n: usize = menu.nics.len();
    match pick_number(line, n) {
        Some(i) => {
            menu.nic_sel = Some(i);
            None
        },
        None => {
            let t: String = text::trim_text(line);
            if text::same(t.as_str(), "0") {
                None
            } else {
                Some(invalid_line(n as u64))
            }
        },
    }
}

/// What is chosen in the list of firmware images.
pub enum FirmwareChoice {
    /// An image of the list, which is chosen now.
    Picked,
    /// One is downloaded.
    Cloud,
    /// A path is typed in.
    Manual,
    /// The directory is listed once more.
    Rescan,
    Back,
    Invalid(String),
}

/// The menu after a line that picks an image, downloads one or types one in.
pub open spec fn firmware_selected(m: MenuV, line: Seq<char>, after: MenuV, r: FirmwareChoice) -> bool {
    let n = m.fw.len();
    match r {
        FirmwareChoice::Picked => pick(line, n + 2) matches Some(i) && i < n && after == (MenuV {
            fw_sel: Some(i),
            fw_decided: true,
            ..m
        }),
        FirmwareChoice::Cloud => pick(line, n + 2) == Some(n as int) && after == m,
        FirmwareChoice::Manual => pick(line, n + 2) == Some(n + 1int) && after == m,
        FirmwareChoice::Back => pick(line, n + 2) is None && text::trim(line) == "0"@ && after == m,
        FirmwareChoice::Invalid(_) => pick(line, n + 2) is None && text::trim(line) != "0"@ && after
            == m,
        FirmwareChoice::Rescan => false,
    }
}

/// Chooses a firmware image by its number; the two numbers behind the last image are for a download
/// and for a path.
pub fn select_firmware(menu: &mut MenuState, line: &str) -> (r: FirmwareChoice)
    requires
        old(menu)@.fw.len() + 2 <= usize::MAX,
    ensures
        ({
            let n = old(menu)@.fw.len();
            match pick(line@, n + 2) {
                Some(i) => if i < n {
                    r is Picked && final(menu)@ == (MenuV {
                        fw_sel: Some(i),
                        fw_decided: true,
                        ..old(menu)@
                    })
                } else {
                    final(menu)@ == old(menu)@ && if i == n {
                        r is Cloud
                    } else {
                        r is Manual
                    }
                },
                None => final(menu)@ == old(menu)@ && if text::trim(line@) == "0"@ {
                    r is Back
                } else {
                    r matches FirmwareChoice::Invalid(s) && s@ == invalid_number(n + 2)
                },
            }
        }),
        firmware_selected(old(menu)@, line@, final(menu)@, r),
{
    let n: usize = menu.fw_candidates.len();
    match pick_number(line, n + 2) {
        Some(i) => {
            if i < n {
                menu.fw_sel = Some(i);
                menu.fw_decided = true;
                FirmwareChoice::Picked
            } else if i == n {
                FirmwareChoice::Cloud
            } else {
                FirmwareChoice::Manual
            }
        },
        None => {
            let t: String = text::trim_text(line);
            if text::same(t.as_str(), "0") {
                FirmwareChoice::Back
            } else {
                FirmwareChoice::Invalid(invalid_line(n as u64 + 2))
            }
        },
    }
}

/// What a line chooses where the directory holds no image.
pub open spec fn bare_choice(line: Seq<char>, r: FirmwareChoice) -> bool {
    let t = text::trim(line);
    match r {
        FirmwareChoice::Cloud => t == "1"@,
        FirmwareChoice::Rescan => t == "2"@,
        FirmwareChoice::Manual => t == "3"@,
        FirmwareChoice::Back => t == "0"@,
        FirmwareChoice::Invalid(_) => t != "0"@ && t != "1"@ && t != "2"@ && t != "3"@,
        FirmwareChoice::Picked => false,
    }
}

/// What is chosen where the directory holds no firmware image.
pub fn select_without_firmware(line: &str) -> (r: FirmwareChoice)
    ensures
        ({
            let t = text::trim(line@);
            if t == "1"@ {
                r is Cloud
            } else if t == "2"@ {
                r is Rescan
            } else if t == "3"@ {
                r is Manual
            } else if t == "0"@ {
                r is Back
            } else {
                r matches FirmwareChoice::Invalid(s) && s@ == invalid_number(3)
            }
        }),
        bare_choice(line@, r),
{
    let t: String = text::trim_text(line);
    if text::same(t.as_str(), "1") {
        FirmwareChoice::Cloud
    } else if text::same(t.as_str(), "2") {
        FirmwareChoice::Rescan
    } else if text::same(t.as_str(), "3") {
        FirmwareChoice::Manual
    } else if text::same(t.as_str(), "0") {
        FirmwareChoice::Back
    } else {
        FirmwareChoice::Invalid(invalid_line(3))
    }
}

/// A text without the quotes at its begin.
pub open spec fn unquoted_start(s: Seq<char>) -> Seq<char>
    decreases s.len(),
{
    if s.len() > 0 && s[0] == '"' {
        unquoted_start(s.drop_first())
    } else {
        s
    }
}

/// A text without the quotes at its end.
pub open spec fn unquoted_end(s: Seq<char>) -> Seq<char>
    decreases s.len(),
{
    if s.len() > 0 && s.last() == '"' {
        unquoted_end(s.drop_last())
    } else {
        s
    }
}

/// The path in a line that was typed in: without blanks round it, and without quotes round that.
pub fn typed_path(line: &str) -> (r: String)
    ensures
        r@ == unquoted_end(unquoted_start(text::trim(line@))),
{
    let t: String = text::trim_text(line);
    let cs: Vec<char> = text::to_chars(t.as_str());
    let n: usize = cs.len();
    let mut from: usize = 0;
    assert(cs@.skip(0) =~= cs@);
    while from < n && cs[from] == '"'
        invariant
            n == cs@.len(),
            from <= n,
            unquoted_start(cs@) == unquoted_start(cs@.skip(from as int)),
        decreases n - from,
    {
        assert(cs@.skip(from as int)[0] == cs@[from as int]);
        assert(cs@.skip(from as int).drop_first() =~= cs@.skip(from + 1));
        from = from + 1;
    }
    let ghost rest = cs@.skip(from as int);
    proof {
        if from < n {
            assert(rest[0] == cs@[from as int]);
        }
        assert(unquoted_start(cs@) == rest);
    }
    let mut to: usize = n;
    assert(rest.take(rest.len() as int) =~= rest);
    while to > from && cs[to - 1] == '"'
        invariant
            n == cs@.len(),
            from <= to <= n,
            rest == cs@.skip(from as int),
            unquoted_end(rest) == unquoted_end(rest.take(to - from)),
        decreases to,
    {
        assert(rest.take(to - from).last() == cs@[to - 1]);
        assert(rest.take(to - from).drop_last() =~= rest.take(to - from - 1));
        to = to - 1;
    }
    proof {
        if to > from {
            assert(rest.take(to - from).last() == cs@[to - 1]);
        }
        assert(unquoted_end(rest) == rest.take(to - from));
    }
    let inner: &[char] = vstd::slice::slice_subrange(cs.as_slice(), from, to);
    assert(inner@ =~= rest.take(to - from));
    text::from_chars(inner)
}

// ---------------------------------------------------------------- laws

/// A refresh does not replace the chosen file: as long as it is a file, or still listed, it is chosen
/// after the refresh too, whatever else the directory holds. Where it is gone, nothing is chosen if the
/// user had chosen it, and else a sole candidate is.
pub proof fn lemma_refresh_keeps_file(
    m: MenuV,
    found: Seq<Seq<char>>,
    is_file: bool,
    shown: Seq<Seq<char>>,
)
    requires
        chosen_firmware(m) is Some,
        listed_with(found, chosen_firmware(m), is_file, shown),
    ensures
        ({
            let k = chosen_firmware(m)->0;
            let after = with_firmware(m, shown, chosen_firmware(m));
            if is_file || paths::path_at(found, k) is Some {
                chosen_firmware(after) matches Some(p) && paths::same_path(p, k)
            } else {
                after.fw_sel == (if m.fw_decided {
                    None
                } else {
                    sole(shown.len())
                })
            }
        }),
{
    let k = chosen_firmware(m)->0;
    if is_file || paths::path_at(found, k) is Some {
        lemma_listed(found, k, is_file, shown);
    }
}

/// Once the user has chosen an image, a refresh never chooses another one, and neither does any refresh
/// after it: what is chosen then is the image of before, or nothing.
pub proof fn lemma_no_silent_switch(m: MenuV, list: Seq<Seq<char>>, keep: Option<Seq<char>>)
    requires
        m.fw_decided,
        keep == chosen_firmware(m),
    ensures
        with_firmware(m, list, keep).fw_decided,
        chosen_firmware(with_firmware(m, list, keep)) matches Some(p) ==> chosen_firmware(
            m,
        ) matches Some(k) && paths::same_path(p, k),
{
    if keep is Some {
        paths::lemma_path_at(list, keep->0);
    }
}

/// As long as the user has chosen no image, a sole candidate is chosen by itself, whether or not another
/// one was chosen by itself before.
pub proof fn lemma_sole_is_chosen(m: MenuV, list: Seq<Seq<char>>)
    requires
        !m.fw_decided,
        list.len() == 1,
    ensures
        chosen_firmware(with_firmware(m, list, chosen_firmware(m))) == Some(list[0]),
{
    let keep = chosen_firmware(m);
    if keep is Some {
        paths::lemma_path_at(list, keep->0);
    }
}

/// A refresh keeps the chosen adapter as long as there is one of its name.
pub proof fn lemma_refresh_keeps_nic(m: MenuV, nics: Seq<NicV>, k: int)
    requires
        chosen_nic(m) is Some,
        0 <= k < nics.len(),
        nics[k].name == chosen_nic(m)->0.name,
    ensures
        chosen_nic(with_nics(m, nics)) matches Some(n) && n.name == chosen_nic(m)->0.name,
{
    elevated::lemma_nic_named(nics, chosen_nic(m)->0.name);
}

} // verus!
