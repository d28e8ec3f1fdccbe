//! Lists that the user picks from by number, and the order of paths in them.

use vstd::prelude::*;
use vstd::string::*;

use crate::paths;
use crate::rom;
use crate::rom::RomInfo;
use crate::text;

verus! {

// ---------------------------------------------------------------- the order of paths

/// No path comes behind a later one.
pub open spec fn in_order(v: Seq<Seq<char>>) -> bool {
    forall|i: int, j: int| 0 <= i <= j < v.len() ==> paths::path_le(#[trigger] v[i], #[trigger] v[j])
}

/// `r` holds the paths of `v`, each as often as `v`, in order.
pub open spec fn arranged(v: Seq<Seq<char>>, r: Seq<Seq<char>>) -> bool {
    in_order(r) && r.to_multiset() == v.to_multiset()
}

/// A path put in at its place leaves an ordered list in order.
proof fn lemma_put_in(v: Seq<Seq<char>>, at: int, p: Seq<char>)
    requires
        in_order(v),
        0 <= at <= v.len(),
        at > 0 ==> paths::path_le(v[at - 1], p),
        forall|j: int| at <= j < v.len() ==> paths::path_le(p, #[trigger] v[j]),
    ensures
        in_order(v.insert(at, p)),
{
    let w = v.insert(at, p);
    assert forall|i: int, j: int| 0 <= i <= j < w.len() implies paths::path_le(
        #[trigger] w[i],
        #[trigger] w[j],
    ) by {
        let x = if i < at {
            i
        } else {
            i - 1
        };
        let y = if j < at {
            j
        } else {
            j - 1
        };
        if i == at && j == at {
            paths::lemma_path_total(p, p);
        } else if i == at {
            assert(w[j] == v[y]);
        } else if j == at {
            assert(w[i] == v[x]);
            assert(paths::path_le(v[x], v[at - 1]));
            paths::lemma_path_transitive(v[x], v[at - 1], p);
        } else {
            assert(w[i] == v[x] && w[j] == v[y]);
        }
    }
}

/// Puts paths in order.
pub fn sort_paths(list: &Vec<String>) -> (r: Vec<String>)
    ensures
        arranged(text::views(list@), text::views(r@)),
{
    let ghost lv = text::views(list@);
    let mut out: Vec<String> = Vec::new();
    let mut i: usize = 0;
    assert(lv.take(0) =~= text::views(out@));
    while i < list.len()
        invariant
            i <= list@.len(),
            lv == text::views(list@),
            arranged(lv.take(i as int), text::views(out@)),
        decreases list@.len() - i,
    {
        let s: String = list[i].clone();
        let ghost ov = text::views(out@);
        let mut at: usize = out.len();
        while at > 0 && !paths::not_behind(out[at - 1].as_str(), s.as_str())
            invariant
                at <= out@.len(),
                ov == text::views(out@),
                forall|j: int| at <= j < ov.len() ==> !paths::path_le(#[trigger] ov[j], s@),
            decreases at,
        {
            assert(ov[at - 1] == out@[at - 1]@);
            at = at - 1;
        }
        proof {
            if at > 0 {
                assert(ov[at - 1] == out@[at - 1]@);
            }
            assert forall|j: int| at <= j < ov.len() implies paths::path_le(s@, #[trigger] ov[j]) by {
                paths::lemma_path_total(s@, ov[j]);
            }
            lemma_put_in(ov, at as int, s@);
            vstd::seq_lib::to_multiset_insert(ov, at as int, s@);
            vstd::seq_lib::to_multiset_build(lv.take(i as int), s@);
            assert(lv.take(i + 1) =~= lv.take(i as int).push(s@));
        }
        let ghost sv = s@;
        out.insert(at, s);
        assert(text::views(out@) =~= ov.insert(at as int, sv));
        i = i + 1;
    }
    assert(lv.take(i as int) =~= lv);
    out
}

// ---------------------------------------------------------------- numbered lists

/// Items one below the other, numbered from 1, each behind `indent`.
pub open spec fn numbered(items: Seq<Seq<char>>, indent: Seq<char>) -> Seq<char>
    decreases items.len(),
{
    if items.len() == 0 {
        Seq::empty()
    } else {
        numbered(items.drop_last(), indent) + indent + "["@ + text::dec(items.len()) + "] "@
            + items.last() + "\n"@
    }
}

fn push_numbered(out: &mut String, items: &Vec<String>, indent: &str)
    ensures
        final(out)@ == old(out)@ + numbered(text::views(items@), indent@),
{
    let ghost before = out@;
    let ghost iv = text::views(items@);
    let mut i: usize = 0;
    assert(before + numbered(iv.take(0), indent@) =~= before);
    while i < items.len()
        invariant
            i <= items@.len(),
            iv == text::views(items@),
            out@ == before + numbered(iv.take(i as int), indent@),
        decreases items@.len() - i,
    {
        out.append(indent);
        out.append("[");
        text::push_dec(out, i as u64 + 1);
        out.append("] ");
        out.append(items[i].as_str());
        out.append("\n");
        proof {
            let now = iv.take(i + 1);
            assert(now.drop_last() =~= iv.take(i as int));
            assert(now.last() == items@[i as int]@);
            assert(out@ =~= before + numbered(now, indent@));
        }
        i = i + 1;
    }
    assert(iv.take(i as int) =~= iv);
}

/// The list of adapters with its prompt; each adapter is given on one line.
pub fn nic_list(lines: &Vec<String>) -> (r: String)
    ensures
        r@ == "\n"@ + numbered(text::views(lines@), "  "@) + " 输入编号（0 返回）> "@,
{
    let mut s: String = "\n".to_owned();
    push_numbered(&mut s, lines, "  ");
    s.append(" 输入编号（0 返回）> ");
    s
}

/// A firmware image in the list: its name and its size as text.
pub fn firmware_item(name: &str, size: &str) -> (r: String)
    ensures
        r@ == name@ + "（"@ + size@ + "）"@,
{
    let mut s: String = name.to_owned();
    s.append("（");
    s.append(size);
    s.append("）");
    s
}

/// What can be chosen among these firmware images; the two numbers behind the last one are for a
/// download and for a path.
pub open spec fn firmware_choices(items: Seq<Seq<char>>) -> Seq<char> {
    if items.len() > 0 {
        " 自动识别到 "@ + text::dec(items.len()) + " 个刷机包：\n"@ + numbered(items, "   "@)
            + "  ----------\n   ["@ + text::dec(items.len() + 1) + "] 从云端列表下载\n   ["@
            + text::dec(items.len() + 2) + "] 手动输入路径（高级，不推荐）\n"@
    } else {
        " 程序目录未发现刷机包（.bin 文件）。\n   [1] 从云端列表下载（推荐）\n   [2] 已复制 .bin 到程序目录？按回车重新扫描\n   [3] 手动输入路径（高级，不推荐）\n"@
    }
}

/// The list of firmware images with its prompt. `dir` is the directory that was searched.
pub fn firmware_list(dir: &str, items: &Vec<String>) -> (r: String)
    requires
        items@.len() + 2 <= u64::MAX,
    ensures
        r@ == "\n 刷机包目录（自动识别 .bin）："@ + dir@ + "\n"@ + firmware_choices(
            text::views(items@),
        ) + "   0 返回\n 输入编号 > "@,
{
    let mut s: String = "\n 刷机包目录（自动识别 .bin）：".to_owned();
    s.append(dir);
    s.append("\n");
    let ghost head = s@;
    let n: u64 = items.len() as u64;
    if n > 0 {
        s.append(" 自动识别到 ");
        text::push_dec(&mut s, n);
        s.append(" 个刷机包：\n");
        push_numbered(&mut s, items, "   ");
        s.append("  ----------\n   [");
        text::push_dec(&mut s, n + 1);
        s.append("] 从云端列表下载\n   [");
        text::push_dec(&mut s, n + 2);
        s.append("] 手动输入路径（高级，不推荐）\n");
    } else {
        s.append(
            " 程序目录未发现刷机包（.bin 文件）。\n   [1] 从云端列表下载（推荐）\n   [2] 已复制 .bin 到程序目录？按回车重新扫描\n   [3] 手动输入路径（高级，不推荐）\n",
        );
    }
    assert(s@ =~= head + firmware_choices(text::views(items@)));
    s.append("   0 返回\n 输入编号 > ");
    s
}

/// A published firmware image in the list.
pub open spec fn cloud_item(r: rom::RomV) -> Seq<char> {
    r.name + "（"@ + text::dec(r.size as nat) + " 字节）"@
}

/// The list of published firmware images with its prompt.
pub fn cloud_list(list: &Vec<RomInfo>) -> (r: String)
    ensures
        r@ == "云端 "@ + text::dec(list@.len()) + " 个型号：\n"@ + numbered(
            rom::rom_views(list@).map_values(|r: rom::RomV| cloud_item(r)),
            "  "@,
        ) + " 输入编号下载（0 返回）> "@,
{
    let ghost wanted = rom::rom_views(list@).map_values(|r: rom::RomV| cloud_item(r));
    let mut items: Vec<String> = Vec::new();
    let mut i: usize = 0;
    while i < list.len()
        invariant
            i <= list@.len(),
            wanted == rom::rom_views(list@).map_values(|r: rom::RomV| cloud_item(r)),
            text::views(items@) == wanted.take(i as int),
        decreases list@.len() - i,
    {
        let rom: &RomInfo = &list[i];
        let mut s: String = rom.name.clone();
        s.append("（");
        text::push_dec(&mut s, rom.size);
        s.append(" 字节）");
        let ghost before = text::views(items@);
        let ghost sv = s@;
        assert(wanted[i as int] == cloud_item(rom@));
        items.push(s);
        assert(text::views(items@) =~= before.push(sv));
        i = i + 1;
        assert(text::views(items@) =~= wanted.take(i as int));
    }
    assert(wanted.take(i as int) =~= wanted);
    let mut s: String = "云端 ".to_owned();
    text::push_dec(&mut s, list.len() as u64);
    s.append(" 个型号：\n");
    push_numbered(&mut s, &items, "  ");
    s.append(" 输入编号下载（0 返回）> ");
    s
}

} // verus!
