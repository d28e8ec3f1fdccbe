//! Paths of files on the machine that the program is made for: the parts that they are made of, and
//! their order.
//!
//! Two texts are the same path where they have the same parts: either separator may stand between
//! names, more than one counts as one, and a `.` on the way counts for nothing. A path may begin with a
//! prefix: a drive, a network share, a device, or one of the verbatim forms behind `\\?\`, in which only
//! `\` separates and a `.` is a part like others.

use vstd::prelude::*;
use vstd::string::*;

use crate::text;

verus! {

// ---------------------------------------------------------------- prefixes

/// What a part of a path is. The kinds are listed in their order.
#[derive(Clone, Copy, PartialEq, Eq, Structural)]
pub enum PartKind {
    /// `\\?\name`.
    Verbatim,
    /// `\\?\UNC\server\share`.
    VerbatimShare,
    /// `\\?\C:`, named by its upper-case letter.
    VerbatimDrive,
    /// `\\.\name`.
    Device,
    /// `\\server\share`.
    Share,
    /// `C:`, named by its upper-case letter.
    Drive,
    /// The start of a directory tree.
    Root,
    /// A `.`.
    Here,
    /// A `..`.
    Up,
    Name,
}

/// A part of a path.
pub struct Part {
    pub kind: PartKind,
    /// The name, where the part has one; the server of a share.
    pub name: String,
    /// The name of a share on its server.
    pub share: String,
}

/// What a part of a path says.
#[verifier::ext_equal]
pub struct PartV {
    pub kind: PartKind,
    pub name: Seq<char>,
    pub share: Seq<char>,
}

impl View for Part {
    type V = PartV;

    open spec fn view(&self) -> PartV {
        PartV { kind: self.kind, name: self.name@, share: self.share@ }
    }
}

/// What some parts say.
pub open spec fn part_views(v: Seq<Part>) -> Seq<PartV> {
    v.map_values(|p: Part| p@)
}

/// A part without a name.
pub open spec fn bare(kind: PartKind) -> PartV {
    PartV { kind, name: Seq::empty(), share: Seq::empty() }
}

/// A part with a name.
pub open spec fn named(kind: PartKind, name: Seq<char>) -> PartV {
    PartV { kind, name, share: Seq::empty() }
}

/// A separator.
pub open spec fn is_sep(c: char) -> bool {
    c == '/' || c == '\\'
}

/// A separator where the path is verbatim, or is not.
pub open spec fn separates(c: char, verbatim: bool) -> bool {
    c == '\\' || (!verbatim && c == '/')
}

/// A letter that can name a drive.
pub open spec fn is_letter(c: char) -> bool {
    ('A' <= c && c <= 'Z') || ('a' <= c && c <= 'z')
}

/// The upper-case letter of a drive.
pub open spec fn drive_letter(c: char) -> char {
    if 'a' <= c && c <= 'z' {
        ((c as u32) - 32) as char
    } else {
        c
    }
}

/// Length of what stands before the first separator.
pub open spec fn head_len(s: Seq<char>, verbatim: bool) -> nat
    decreases s.len(),
{
    if s.len() == 0 || separates(s[0], verbatim) {
        0
    } else {
        1 + head_len(s.drop_first(), verbatim)
    }
}

/// What stands before the first separator.
pub open spec fn head(s: Seq<char>, verbatim: bool) -> Seq<char> {
    s.take(head_len(s, verbatim) as int)
}

/// What stands behind the first separator.
pub open spec fn behind_head(s: Seq<char>, verbatim: bool) -> Seq<char> {
    let n = head_len(s, verbatim);
    if n < s.len() {
        s.skip(n as int + 1)
    } else {
        Seq::empty()
    }
}

/// The text starts with a drive.
pub open spec fn has_drive(s: Seq<char>) -> bool {
    s.len() >= 2 && is_letter(s[0]) && s[1] == ':'
}

/// A path may begin with a prefix, which is a part of it and takes this many characters.
pub struct PrefixV {
    pub part: PartV,
    pub len: nat,
}

/// A server and a share behind `at` characters.
pub open spec fn share_prefix(kind: PartKind, s: Seq<char>, at: nat, verbatim: bool) -> PrefixV {
    let server = head(s, verbatim);
    let share = head(behind_head(s, verbatim), verbatim);
    PrefixV {
        part: PartV { kind, name: server, share },
        len: at + server.len() + if share.len() > 0 {
            1 + share.len()
        } else {
            0
        },
    }
}

/// The prefix of what stands behind `\\?\`.
pub open spec fn verbatim_prefix(s: Seq<char>) -> PrefixV {
    if s.len() >= 4 && s[0] == 'U' && s[1] == 'N' && s[2] == 'C' && is_sep(s[3]) {
        share_prefix(PartKind::VerbatimShare, s.skip(4), 8, true)
    } else if has_drive(s) && (s.len() == 2 || is_sep(s[2])) {
        PrefixV { part: named(PartKind::VerbatimDrive, seq![drive_letter(s[0])]), len: 6 }
    } else {
        PrefixV { part: named(PartKind::Verbatim, head(s, true)), len: 4 + head_len(s, true) }
    }
}

/// The text starts with `\\?\`, written with backslashes alone.
pub open spec fn starts_verbatim(s: Seq<char>) -> bool {
    s.len() >= 4 && s[0] == '\\' && s[1] == '\\' && s[2] == '?' && s[3] == '\\'
}

/// The prefix of a path, if it has one.
pub open spec fn prefix_of(s: Seq<char>) -> Option<PrefixV> {
    if s.len() >= 2 && is_sep(s[0]) && is_sep(s[1]) {
        if starts_verbatim(s) {
            Some(verbatim_prefix(s.skip(4)))
        } else if s.len() >= 4 && s[2] == '.' && is_sep(s[3]) {
            Some(
                PrefixV {
                    part: named(PartKind::Device, head(s.skip(4), false)),
                    len: 4 + head_len(s.skip(4), false),
                },
            )
        } else {
            let p = share_prefix(PartKind::Share, s.skip(2), 2, false);
            if p.part.name.len() > 0 && p.part.share.len() > 0 {
                Some(p)
            } else {
                None
            }
        }
    } else if has_drive(s) {
        Some(PrefixV { part: named(PartKind::Drive, seq![drive_letter(s[0])]), len: 2 })
    } else {
        None
    }
}

/// The prefix is of a verbatim form.
pub open spec fn is_verbatim(kind: PartKind) -> bool {
    kind == PartKind::Verbatim || kind == PartKind::VerbatimShare || kind == PartKind::VerbatimDrive
}

// ---------------------------------------------------------------- parts

/// The two separators are one.
pub open spec fn slash(c: char) -> char {
    if c == '\\' {
        '/'
    } else {
        c
    }
}

/// A text with one kind of separator.
pub open spec fn slashed(s: Seq<char>) -> Seq<char> {
    s.map_values(|c: char| slash(c))
}

/// What stands between the separators.
pub open spec fn pieces_of(s: Seq<char>, verbatim: bool) -> Seq<Seq<char>> {
    if verbatim {
        text::split(s, '\\')
    } else {
        text::split(slashed(s), '/')
    }
}

/// The part that stands between two separators, if there is one. `here` tells that a `.` is a part.
pub open spec fn piece_part(piece: Seq<char>, here: bool) -> Option<PartV> {
    if piece.len() == 0 {
        None
    } else if piece == "."@ {
        if here {
            Some(bare(PartKind::Here))
        } else {
            None
        }
    } else if piece == ".."@ {
        Some(bare(PartKind::Up))
    } else {
        Some(named(PartKind::Name, piece))
    }
}

/// The parts that pieces between separators make. A `.` is a part everywhere in a verbatim path, and else
/// only where `open` tells that nothing stands before the first piece.
pub open spec fn piece_parts(pieces: Seq<Seq<char>>, verbatim: bool, open: bool) -> Seq<PartV>
    decreases pieces.len(),
{
    if pieces.len() == 0 {
        Seq::empty()
    } else {
        let before = piece_parts(pieces.drop_last(), verbatim, open);
        match piece_part(pieces.last(), verbatim || (open && pieces.len() == 1)) {
            Some(p) => before.push(p),
            None => before,
        }
    }
}

/// The parts of what follows the prefix. `implied` tells that the prefix implies a root.
pub open spec fn parts_below(s: Seq<char>, verbatim: bool, implied: bool, open: bool) -> Seq<PartV> {
    let rooted = s.len() > 0 && is_sep(s[0]);
    let body = if rooted {
        s.skip(1)
    } else {
        s
    };
    (if rooted || implied {
        seq![bare(PartKind::Root)]
    } else {
        Seq::empty()
    }) + piece_parts(pieces_of(body, verbatim), verbatim, open && !rooted)
}

/// The parts of a path.
pub open spec fn parts(path: Seq<char>) -> Seq<PartV> {
    match prefix_of(path) {
        Some(p) => {
            let verbatim = is_verbatim(p.part.kind);
            let implied = !verbatim && p.part.kind != PartKind::Drive;
            seq![p.part] + parts_below(path.skip(p.len as int), verbatim, implied, false)
        },
        None => parts_below(path, false, false, true),
    }
}

/// The two texts are one path.
pub open spec fn same_path(a: Seq<char>, b: Seq<char>) -> bool {
    parts(a) == parts(b)
}

// ---------------------------------------------------------------- reading a path

fn sep(c: char) -> (r: bool)
    ensures
        r == is_sep(c),
{
    c == '/' || c == '\\'
}

fn starts_with_drive(s: &[char]) -> (r: bool)
    ensures
        r == has_drive(s@),
{
    s.len() >= 2 && (('A' <= s[0] && s[0] <= 'Z') || ('a' <= s[0] && s[0] <= 'z')) && s[1] == ':'
}

proof fn lemma_head_len(s: Seq<char>, verbatim: bool)
    ensures
        head_len(s, verbatim) <= s.len(),
        forall|i: int|
            0 <= i < head_len(s, verbatim) ==> !separates(#[trigger] s[i], verbatim),
        head_len(s, verbatim) < s.len() ==> separates(s[head_len(s, verbatim) as int], verbatim),
    decreases s.len(),
{
    if s.len() > 0 && !separates(s[0], verbatim) {
        let rest = s.drop_first();
        lemma_head_len(rest, verbatim);
        assert forall|i: int| 0 <= i < head_len(s, verbatim) implies !separates(
            #[trigger] s[i],
            verbatim,
        ) by {
            if i > 0 {
                assert(rest[i - 1] == s[i]);
            }
        }
        if head_len(s, verbatim) < s.len() {
            assert(rest[head_len(rest, verbatim) as int] == s[head_len(s, verbatim) as int]);
        }
    }
}

fn find_sep(s: &[char], verbatim: bool) -> (r: usize)
    ensures
        r == head_len(s@, verbatim),
        r <= s@.len(),
{
    let mut i: usize = 0;
    assert(s@.skip(0) =~= s@);
    while i < s.len() && !(s[i] == '\\' || (!verbatim && s[i] == '/'))
        invariant
            i <= s@.len(),
            head_len(s@, verbatim) == i + head_len(s@.skip(i as int), verbatim),
        decreases s@.len() - i,
    {
        assert(s@.skip(i as int)[0] == s@[i as int]);
        assert(s@.skip(i as int).drop_first() =~= s@.skip(i + 1));
        i = i + 1;
    }
    if i < s.len() {
        assert(s@.skip(i as int)[0] == s@[i as int]);
    }
    i
}

fn upper_letter(c: char) -> (r: char)
    ensures
        r == drive_letter(c),
{
    if 'a' <= c && c <= 'z' {
        ((c as u8) - 32) as char
    } else {
        c
    }
}

fn letter_text(c: char) -> (r: String)
    ensures
        r@ == seq![drive_letter(c)],
{
    let mut s: String = String::new();
    s.push(upper_letter(c));
    assert(s@ =~= seq![drive_letter(c)]);
    s
}

fn no_text() -> (r: String)
    ensures
        r@ == Seq::<char>::empty(),
{
    let s: String = String::new();
    assert(s@ =~= Seq::<char>::empty());
    s
}

/// A prefix of a path and its length.
struct Prefix {
    part: Part,
    len: usize,
}

spec fn prefix_view(p: Option<Prefix>) -> Option<PrefixV> {
    match p {
        Some(p) => Some(PrefixV { part: p.part@, len: p.len as nat }),
        None => None,
    }
}

/// Reads a server and a share at `at`.
fn read_share(kind: PartKind, path: &[char], at: usize, verbatim: bool) -> (r: Prefix)
    requires
        at <= path@.len(),
    ensures
        (PrefixV { part: r.part@, len: r.len as nat }) == share_prefix(
            kind,
            path@.skip(at as int),
            at as nat,
            verbatim,
        ),
        r.len <= path@.len(),
{
    let n: usize = path.len();
    let s: &[char] = vstd::slice::slice_subrange(path, at, n);
    assert(s@ =~= path@.skip(at as int));
    let k: usize = find_sep(s, verbatim);
    let server: &[char] = vstd::slice::slice_subrange(s, 0, k);
    assert(server@ =~= head(s@, verbatim));
    let rest: &[char] = if k < s.len() {
        vstd::slice::slice_subrange(s, k + 1, s.len())
    } else {
        vstd::slice::slice_subrange(s, k, k)
    };
    assert(rest@ =~= behind_head(s@, verbatim));
    let m: usize = find_sep(rest, verbatim);
    let share: &[char] = vstd::slice::slice_subrange(rest, 0, m);
    assert(share@ =~= head(rest@, verbatim));
    let len: usize = if m > 0 {
        at + k + 1 + m
    } else {
        at + k
    };
    Prefix {
        part: Part { kind, name: text::from_chars(server), share: text::from_chars(share) },
        len,
    }
}

/// Reads a name at `at`.
fn read_name(kind: PartKind, path: &[char], at: usize, verbatim: bool) -> (r: Prefix)
    requires
        at <= path@.len(),
    ensures
        r.part@ == named(kind, head(path@.skip(at as int), verbatim)),
        r.len == at + head_len(path@.skip(at as int), verbatim),
        r.len <= path@.len(),
{
    let n: usize = path.len();
    let s: &[char] = vstd::slice::slice_subrange(path, at, n);
    assert(s@ =~= path@.skip(at as int));
    let k: usize = find_sep(s, verbatim);
    let name: &[char] = vstd::slice::slice_subrange(s, 0, k);
    assert(name@ =~= head(s@, verbatim));
    Prefix { part: Part { kind, name: text::from_chars(name), share: no_text() }, len: at + k }
}

fn read_verbatim(path: &[char]) -> (r: Prefix)
    requires
        path@.len() >= 4,
    ensures
        (PrefixV { part: r.part@, len: r.len as nat }) == verbatim_prefix(path@.skip(4)),
        r.len <= path@.len(),
{
    let n: usize = path.len();
    let s: &[char] = vstd::slice::slice_subrange(path, 4, n);
    assert(s@ =~= path@.skip(4));
    if s.len() >= 4 && s[0] == 'U' && s[1] == 'N' && s[2] == 'C' && sep(s[3]) {
        assert(s@.skip(4) =~= path@.skip(8));
        read_share(PartKind::VerbatimShare, path, 8, true)
    } else if starts_with_drive(s) && (s.len() == 2 || sep(s[2])) {
        Prefix {
            part: Part {
                kind: PartKind::VerbatimDrive,
                name: letter_text(s[0]),
                share: no_text(),
            },
            len: 6,
        }
    } else {
        read_name(PartKind::Verbatim, path, 4, true)
    }
}

fn read_prefix(path: &[char]) -> (r: Option<Prefix>)
    ensures
        prefix_view(r) == prefix_of(path@),
        r matches Some(p) ==> p.len <= path@.len(),
{
    let n: usize = path.len();
    if n >= 2 && sep(path[0]) && sep(path[1]) {
        if n >= 4 && path[0] == '\\' && path[1] == '\\' && path[2] == '?' && path[3] == '\\' {
            Some(read_verbatim(path))
        } else if n >= 4 && path[2] == '.' && sep(path[3]) {
            Some(read_name(PartKind::Device, path, 4, false))
        } else {
            let s: &[char] = vstd::slice::slice_subrange(path, 2, n);
            assert(s@ =~= path@.skip(2));
            let p: Prefix = read_share(PartKind::Share, path, 2, false);
            proof {
                reveal_strlit("");
                if p.part.name@.len() == 0 {
                    assert(p.part.name@ =~= ""@);
                }
                if p.part.share@.len() == 0 {
                    assert(p.part.share@ =~= ""@);
                }
            }
            if !text::same(p.part.name.as_str(), "") && !text::same(p.part.share.as_str(), "") {
                Some(p)
            } else {
                None
            }
        }
    } else if starts_with_drive(path) {
        Some(
            Prefix {
                part: Part {
                    kind: PartKind::Drive,
                    name: letter_text(path[0]),
                    share: no_text(),
                },
                len: 2,
            },
        )
    } else {
        None
    }
}

fn slashed_text(cs: &[char]) -> (r: String)
    ensures
        r@ == slashed(cs@),
{
    let mut out: Vec<char> = Vec::new();
    let mut i: usize = 0;
    while i < cs.len()
        invariant
            i <= cs@.len(),
            out@ == slashed(cs@).take(i as int),
        decreases cs@.len() - i,
    {
        let c: char = if cs[i] == '\\' {
            '/'
        } else {
            cs[i]
        };
        out.push(c);
        i = i + 1;
        assert(out@ =~= slashed(cs@).take(i as int));
    }
    assert(slashed(cs@).take(i as int) =~= slashed(cs@));
    text::from_chars(out.as_slice())
}

fn cut_pieces(cs: &[char], verbatim: bool) -> (r: Vec<String>)
    ensures
        text::views(r@) == pieces_of(cs@, verbatim),
{
    if verbatim {
        let s: String = text::from_chars(cs);
        text::split_text(s.as_str(), '\\')
    } else {
        let s: String = slashed_text(cs);
        text::split_text(s.as_str(), '/')
    }
}

fn push_part(out: &mut Vec<Part>, kind: PartKind, name: String)
    ensures
        part_views(final(out)@) == part_views(old(out)@).push(named(kind, name@)),
{
    let ghost nv = name@;
    out.push(Part { kind, name, share: no_text() });
    assert(part_views(out@) =~= part_views(old(out)@).push(named(kind, nv)));
}

fn push_bare(out: &mut Vec<Part>, kind: PartKind)
    ensures
        part_views(final(out)@) == part_views(old(out)@).push(bare(kind)),
{
    push_part(out, kind, no_text());
}

fn push_pieces(out: &mut Vec<Part>, pieces: &Vec<String>, verbatim: bool, open: bool)
    ensures
        part_views(final(out)@) == part_views(old(out)@) + piece_parts(
            text::views(pieces@),
            verbatim,
            open,
        ),
{
    let ghost before = part_views(out@);
    let ghost pv = text::views(pieces@);
    let mut i: usize = 0;
    assert(before + piece_parts(pv.take(0), verbatim, open) =~= before);
    while i < pieces.len()
        invariant
            i <= pieces@.len(),
            pv == text::views(pieces@),
            part_views(out@) == before + piece_parts(pv.take(i as int), verbatim, open),
        decreases pieces@.len() - i,
    {
        let piece: &str = pieces[i].as_str();
        let ghost earlier = piece_parts(pv.take(i as int), verbatim, open);
        proof {
            reveal_strlit("");
            if piece@.len() == 0 {
                assert(piece@ =~= ""@);
            }
            assert(pv.take(i + 1).drop_last() =~= pv.take(i as int));
            assert(pv.take(i + 1).last() == piece@);
        }
        if !text::same(piece, "") {
            if text::same(piece, ".") {
                if verbatim || (open && i == 0) {
                    push_bare(out, PartKind::Here);
                    assert(part_views(out@) =~= before + earlier.push(bare(PartKind::Here)));
                }
            } else if text::same(piece, "..") {
                push_bare(out, PartKind::Up);
                assert(part_views(out@) =~= before + earlier.push(bare(PartKind::Up)));
            } else {
                push_part(out, PartKind::Name, piece.to_owned());
                assert(part_views(out@) =~= before + earlier.push(named(PartKind::Name, piece@)));
            }
        }
        i = i + 1;
    }
    assert(pv.take(i as int) =~= pv);
}

fn push_below(out: &mut Vec<Part>, s: &[char], verbatim: bool, implied: bool, open: bool)
    ensures
        part_views(final(out)@) == part_views(old(out)@) + parts_below(s@, verbatim, implied, open),
{
    let ghost before = part_views(out@);
    let n: usize = s.len();
    let rooted: bool = n > 0 && sep(s[0]);
    if rooted || implied {
        push_bare(out, PartKind::Root);
    }
    let body: &[char] = if rooted {
        vstd::slice::slice_subrange(s, 1, n)
    } else {
        s
    };
    assert(rooted ==> body@ =~= s@.skip(1));
    let pieces: Vec<String> = cut_pieces(body, verbatim);
    push_pieces(out, &pieces, verbatim, open && !rooted);
    assert(part_views(out@) =~= before + parts_below(s@, verbatim, implied, open));
}

/// The parts of a path.
pub fn path_parts(path: &str) -> (r: Vec<Part>)
    ensures
        part_views(r@) == parts(path@),
{
    let cs: Vec<char> = text::to_chars(path);
    let n: usize = cs.len();
    let mut out: Vec<Part> = Vec::new();
    assert(part_views(out@) =~= Seq::<PartV>::empty());
    match read_prefix(cs.as_slice()) {
        Some(p) => {
            let verbatim: bool = match p.part.kind {
                PartKind::Verbatim | PartKind::VerbatimShare | PartKind::VerbatimDrive => true,
                _ => false,
            };
            let implied: bool = !verbatim && p.part.kind != PartKind::Drive;
            let rest: &[char] = vstd::slice::slice_subrange(cs.as_slice(), p.len, n);
            assert(rest@ =~= cs@.skip(p.len as int));
            let ghost pv = p.part@;
            out.push(p.part);
            assert(part_views(out@) =~= seq![pv]);
            push_below(&mut out, rest, verbatim, implied, false);
        },
        None => {
            push_below(&mut out, cs.as_slice(), false, false, true);
        },
    }
    assert(part_views(out@) =~= parts(path@));
    out
}

// ---------------------------------------------------------------- the order of paths

/// Place of a kind among the kinds.
pub open spec fn kind_rank(k: PartKind) -> int {
    match k {
        PartKind::Verbatim => 0,
        PartKind::VerbatimShare => 1,
        PartKind::VerbatimDrive => 2,
        PartKind::Device => 3,
        PartKind::Share => 4,
        PartKind::Drive => 5,
        PartKind::Root => 6,
        PartKind::Here => 7,
        PartKind::Up => 8,
        PartKind::Name => 9,
    }
}

/// The first name comes before the second: the first difference decides, and a name comes before what
/// continues it.
pub open spec fn name_before(a: Seq<char>, b: Seq<char>) -> bool
    decreases a.len(),
{
    if b.len() == 0 {
        false
    } else if a.len() == 0 {
        true
    } else if a[0] != b[0] {
        a[0] < b[0]
    } else {
        name_before(a.drop_first(), b.drop_first())
    }
}

/// The first part comes before the second.
pub open spec fn part_before(a: PartV, b: PartV) -> bool {
    if kind_rank(a.kind) != kind_rank(b.kind) {
        kind_rank(a.kind) < kind_rank(b.kind)
    } else if a.name != b.name {
        name_before(a.name, b.name)
    } else {
        name_before(a.share, b.share)
    }
}

/// The first parts do not come behind the second.
pub open spec fn parts_le(a: Seq<PartV>, b: Seq<PartV>) -> bool
    decreases a.len(),
{
    if a.len() == 0 {
        true
    } else if b.len() == 0 {
        false
    } else if a[0] != b[0] {
        part_before(a[0], b[0])
    } else {
        parts_le(a.drop_first(), b.drop_first())
    }
}

/// The first path does not come behind the second: the first part in which they differ decides, and a
/// path comes before what continues it.
pub open spec fn path_le(a: Seq<char>, b: Seq<char>) -> bool {
    parts_le(parts(a), parts(b))
}

proof fn lemma_name_total(a: Seq<char>, b: Seq<char>)
    ensures
        a == b || name_before(a, b) || name_before(b, a),
        !(name_before(a, b) && name_before(b, a)),
        !name_before(a, a),
    decreases a.len(),
{
    if a.len() > 0 {
        lemma_name_total(a.drop_first(), a.drop_first());
    }
    if a.len() > 0 && b.len() > 0 {
        lemma_name_total(a.drop_first(), b.drop_first());
        if a[0] == b[0] && a.drop_first() == b.drop_first() {
            assert(a =~= seq![a[0]] + a.drop_first());
            assert(b =~= seq![b[0]] + b.drop_first());
        }
    } else if a.len() == 0 && b.len() == 0 {
        assert(a =~= b);
    }
}

proof fn lemma_name_transitive(a: Seq<char>, b: Seq<char>, c: Seq<char>)
    requires
        name_before(a, b),
        name_before(b, c),
    ensures
        name_before(a, c),
    decreases a.len(),
{
    if a.len() > 0 && a[0] == b[0] && b[0] == c[0] {
        lemma_name_transitive(a.drop_first(), b.drop_first(), c.drop_first());
    }
}

proof fn lemma_parts_total(a: Seq<PartV>, b: Seq<PartV>)
    ensures
        parts_le(a, b) || parts_le(b, a),
        parts_le(a, b) && parts_le(b, a) ==> a == b,
    decreases a.len(),
{
    if a.len() > 0 && b.len() > 0 {
        lemma_parts_total(a.drop_first(), b.drop_first());
        lemma_name_total(a[0].name, b[0].name);
        lemma_name_total(a[0].share, b[0].share);
        if a[0] == b[0] && a.drop_first() == b.drop_first() {
            assert(a =~= seq![a[0]] + a.drop_first());
            assert(b =~= seq![b[0]] + b.drop_first());
        }
    } else if a.len() == 0 && b.len() == 0 {
        assert(a =~= b);
    }
}

proof fn lemma_part_transitive(x: PartV, y: PartV, z: PartV)
    requires
        part_before(x, y),
        part_before(y, z),
    ensures
        part_before(x, z),
        x != z,
{
    lemma_name_total(x.name, z.name);
    lemma_name_total(x.share, z.share);
    lemma_name_total(x.name, y.name);
    lemma_name_total(y.name, z.name);
    lemma_name_total(x.share, y.share);
    lemma_name_total(y.share, z.share);
    if kind_rank(x.kind) == kind_rank(y.kind) && kind_rank(y.kind) == kind_rank(z.kind) {
        if x.name != y.name && y.name != z.name {
            lemma_name_transitive(x.name, y.name, z.name);
        } else if x.name == y.name && y.name == z.name {
            lemma_name_transitive(x.share, y.share, z.share);
        }
    }
}

proof fn lemma_parts_transitive(a: Seq<PartV>, b: Seq<PartV>, c: Seq<PartV>)
    requires
        parts_le(a, b),
        parts_le(b, c),
    ensures
        parts_le(a, c),
    decreases a.len(),
{
    if a.len() > 0 {
        let x = a[0];
        let y = b[0];
        let z = c[0];
        if x == y && y == z {
            lemma_parts_transitive(a.drop_first(), b.drop_first(), c.drop_first());
        } else if x != y && y != z {
            lemma_part_transitive(x, y, z);
        }
    }
}

/// Of two paths one does not come behind the other, and both do not only where they are one path.
pub proof fn lemma_path_total(a: Seq<char>, b: Seq<char>)
    ensures
        path_le(a, b) || path_le(b, a),
        path_le(a, b) && path_le(b, a) <==> same_path(a, b),
{
    lemma_parts_total(parts(a), parts(b));
    if same_path(a, b) {
        lemma_parts_total(parts(a), parts(a));
    }
}

/// What does not come behind a path does not come behind a later one.
pub proof fn lemma_path_transitive(a: Seq<char>, b: Seq<char>, c: Seq<char>)
    requires
        path_le(a, b),
        path_le(b, c),
    ensures
        path_le(a, c),
{
    lemma_parts_transitive(parts(a), parts(b), parts(c));
}

proof fn lemma_head_slashed(s: Seq<char>)
    ensures
        head_len(slashed(s), false) == head_len(s, false),
        head(slashed(s), false) == head(s, false),
        behind_head(slashed(s), false) == slashed(behind_head(s, false)),
{
    lemma_head_len_slashed(s);
    lemma_head_len(s, false);
    let n = head_len(s, false) as int;
    assert forall|i: int| 0 <= i < n implies slashed(s)[i] == s[i] by {
        assert(!separates(s[i], false));
    }
    assert(head(slashed(s), false) =~= head(s, false));
    assert(behind_head(slashed(s), false) =~= slashed(behind_head(s, false)));
}

proof fn lemma_head_len_slashed(s: Seq<char>)
    ensures
        head_len(slashed(s), false) == head_len(s, false),
    decreases s.len(),
{
    if s.len() > 0 {
        lemma_head_len_slashed(s.drop_first());
        assert(slashed(s).drop_first() =~= slashed(s.drop_first()));
    }
}

proof fn lemma_below_slashed(s: Seq<char>, implied: bool, open: bool)
    ensures
        parts_below(slashed(s), false, implied, open) == parts_below(s, false, implied, open),
{
    assert(slashed(slashed(s)) =~= slashed(s));
    if s.len() > 0 && is_sep(s[0]) {
        let body = s.skip(1);
        assert(slashed(s).skip(1) =~= slashed(body));
        assert(slashed(slashed(body)) =~= slashed(body));
    }
}

/// A path is the same with the other separator, unless it is verbatim.
pub proof fn lemma_either_separator(path: Seq<char>)
    requires
        !starts_verbatim(path),
    ensures
        same_path(path, slashed(path)),
{
    let s = slashed(path);
    lemma_below_slashed(path, false, true);
    if path.len() >= 2 && is_sep(path[0]) && is_sep(path[1]) {
        assert(s.skip(2) =~= slashed(path.skip(2)));
        lemma_head_slashed(path.skip(2));
        lemma_head_slashed(behind_head(path.skip(2), false));
        if path.len() >= 4 {
            assert(s.skip(4) =~= slashed(path.skip(4)));
            lemma_head_slashed(path.skip(4));
        }
    }
    match prefix_of(path) {
        Some(p) => {
            lemma_prefix_fits(path);
            assert(s.skip(p.len as int) =~= slashed(path.skip(p.len as int)));
            lemma_below_slashed(path.skip(p.len as int), p.part.kind != PartKind::Drive, false);
            assert(prefix_of(s) == Some(p));
        },
        None => {
            assert(prefix_of(s) is None);
        },
    }
}

proof fn lemma_prefix_fits(path: Seq<char>)
    requires
        !starts_verbatim(path),
    ensures
        prefix_of(path) matches Some(p) ==> p.len <= path.len() && !is_verbatim(p.part.kind),
{
    if path.len() >= 2 {
        let s = path.skip(2);
        lemma_head_len(s, false);
        lemma_head_len(behind_head(s, false), false);
    }
    if path.len() >= 4 {
        lemma_head_len(path.skip(4), false);
    }
}

proof fn lemma_empty_piece(p: Seq<Seq<char>>, q: Seq<Seq<char>>, open: bool)
    requires
        p.len() > 0,
    ensures
        piece_parts(p + seq![Seq::<char>::empty()] + q, false, open) == piece_parts(
            p + q,
            false,
            open,
        ),
    decreases q.len(),
{
    let none = seq![Seq::<char>::empty()];
    if q.len() == 0 {
        assert((p + none + q).drop_last() =~= p);
        assert(p + q =~= p);
    } else {
        lemma_empty_piece(p, q.drop_last(), open);
        assert((p + none + q).drop_last() =~= p + none + q.drop_last());
        assert((p + q).drop_last() =~= p + q.drop_last());
    }
}

proof fn lemma_doubled_pieces(a: Seq<char>, b: Seq<char>, open: bool)
    ensures
        piece_parts(pieces_of(a + seq!['/', '/'] + b, false), false, open) == piece_parts(
            pieces_of(a + seq!['/'] + b, false),
            false,
            open,
        ),
{
    let x = slashed(a);
    let y = slashed(b);
    let bar = seq!['/'];
    let none = Seq::<char>::empty();
    let long = slashed(a + seq!['/', '/'] + b);
    let short = slashed(a + bar + b);
    assert(long =~= x + bar + (none + bar + y));
    assert(short =~= x + bar + y);
    text::lemma_split_concat(x, '/', none + bar + y);
    text::lemma_split_concat(none, '/', y);
    text::lemma_split_concat(x, '/', y);
    text::lemma_split_join(x, '/');
    let p = text::split(x, '/');
    let q = text::split(y, '/');
    assert(text::split(long, '/') =~= p + seq![none] + q);
    lemma_empty_piece(p, q, open);
}

proof fn lemma_doubled_below(a: Seq<char>, b: Seq<char>, open: bool)
    requires
        a.len() > 0 || !open,
    ensures
        parts_below(a + seq!['/', '/'] + b, false, false, open) == parts_below(
            a + seq!['/'] + b,
            false,
            false,
            open,
        ),
{
    let long = a + seq!['/', '/'] + b;
    let short = a + seq!['/'] + b;
    if a.len() == 0 {
        assert(long[0] == '/' && short[0] == '/');
        assert(long.skip(1) =~= seq!['/'] + b);
        assert(short.skip(1) =~= b);
        lemma_leading_separator(b);
    } else if is_sep(a[0]) {
        assert(long[0] == a[0] && short[0] == a[0]);
        assert(long.skip(1) =~= a.skip(1) + seq!['/', '/'] + b);
        assert(short.skip(1) =~= a.skip(1) + seq!['/'] + b);
        lemma_doubled_pieces(a.skip(1), b, false);
    } else {
        assert(long[0] == a[0] && short[0] == a[0]);
        lemma_doubled_pieces(a, b, open);
    }
}

/// A separator before pieces that are not the first of a path makes no difference.
proof fn lemma_leading_separator(b: Seq<char>)
    ensures
        piece_parts(pieces_of(seq!['/'] + b, false), false, false) == piece_parts(
            pieces_of(b, false),
            false,
            false,
        ),
{
    let y = slashed(b);
    let none = Seq::<char>::empty();
    assert(slashed(seq!['/'] + b) =~= none + seq!['/'] + y);
    text::lemma_split_concat(none, '/', y);
    let q = text::split(y, '/');
    assert(text::split(none, '/') =~= seq![none]);
    lemma_first_empty(q);
}

proof fn lemma_first_empty(q: Seq<Seq<char>>)
    ensures
        piece_parts(seq![Seq::<char>::empty()] + q, false, false) == piece_parts(q, false, false),
    decreases q.len(),
{
    let none = seq![Seq::<char>::empty()];
    if q.len() == 0 {
        assert((none + q).drop_last() =~= q);
        assert((none + q).last() == Seq::<char>::empty());
    } else {
        lemma_first_empty(q.drop_last());
        assert((none + q).drop_last() =~= none + q.drop_last());
    }
}

/// A doubled separator is as good as one in a path that does not start with two.
pub proof fn lemma_doubled_separator(a: Seq<char>, b: Seq<char>)
    requires
        a.len() > 0,
        is_sep(a[0]) ==> a.len() >= 2 && !is_sep(a[1]),
    ensures
        same_path(a + seq!['/', '/'] + b, a + seq!['/'] + b),
{
    let long = a + seq!['/', '/'] + b;
    let short = a + seq!['/'] + b;
    assert(long[0] == a[0] && short[0] == a[0]);
    if a.len() >= 2 {
        assert(long[1] == a[1] && short[1] == a[1]);
    } else {
        assert(long[1] == '/' && short[1] == '/');
    }
    if has_drive(a) {
        assert(long.skip(2) =~= a.skip(2) + seq!['/', '/'] + b);
        assert(short.skip(2) =~= a.skip(2) + seq!['/'] + b);
        lemma_doubled_below(a.skip(2), b, false);
    } else {
        lemma_doubled_below(a, b, true);
    }
}

fn rank_of(k: PartKind) -> (r: u8)
    ensures
        r == kind_rank(k),
{
    match k {
        PartKind::Verbatim => 0,
        PartKind::VerbatimShare => 1,
        PartKind::VerbatimDrive => 2,
        PartKind::Device => 3,
        PartKind::Share => 4,
        PartKind::Drive => 5,
        PartKind::Root => 6,
        PartKind::Here => 7,
        PartKind::Up => 8,
        PartKind::Name => 9,
    }
}

fn before(a: &str, b: &str) -> (r: bool)
    ensures
        r == name_before(a@, b@),
{
    let x: Vec<char> = text::to_chars(a);
    let y: Vec<char> = text::to_chars(b);
    let mut i: usize = 0;
    assert(a@.skip(0) =~= a@ && b@.skip(0) =~= b@);
    while i < x.len()
        invariant
            x@ == a@,
            y@ == b@,
            i <= x@.len(),
            i <= y@.len(),
            name_before(a@, b@) == name_before(a@.skip(i as int), b@.skip(i as int)),
        decreases x@.len() - i,
    {
        if i == y.len() {
            return false;
        }
        assert(a@.skip(i as int)[0] == x@[i as int] && b@.skip(i as int)[0] == y@[i as int]);
        if x[i] != y[i] {
            return x[i] < y[i];
        }
        assert(a@.skip(i as int).drop_first() =~= a@.skip(i + 1));
        assert(b@.skip(i as int).drop_first() =~= b@.skip(i + 1));
        i = i + 1;
    }
    i < y.len()
}

fn same_part(a: &Part, b: &Part) -> (r: bool)
    ensures
        r == (a@ == b@),
{
    a.kind == b.kind && text::same(a.name.as_str(), b.name.as_str()) && text::same(
        a.share.as_str(),
        b.share.as_str(),
    )
}

/// Whether the first path does not come behind the second.
pub fn not_behind(a: &str, b: &str) -> (r: bool)
    ensures
        r == path_le(a@, b@),
{
    let x: Vec<Part> = path_parts(a);
    let y: Vec<Part> = path_parts(b);
    let ghost xv = parts(a@);
    let ghost yv = parts(b@);
    let mut i: usize = 0;
    assert(xv.skip(0) =~= xv && yv.skip(0) =~= yv);
    while i < x.len()
        invariant
            part_views(x@) == xv,
            part_views(y@) == yv,
            xv == parts(a@),
            yv == parts(b@),
            i <= x@.len(),
            i <= y@.len(),
            parts_le(xv, yv) == parts_le(xv.skip(i as int), yv.skip(i as int)),
        decreases x@.len() - i,
    {
        assert(xv.len() == x@.len() && yv.len() == y@.len());
        if i == y.len() {
            return false;
        }
        assert(xv.skip(i as int)[0] == x@[i as int]@ && yv.skip(i as int)[0] == y@[i as int]@);
        let p: &Part = &x[i];
        let q: &Part = &y[i];
        if !same_part(p, q) {
            let m: u8 = rank_of(p.kind);
            let n: u8 = rank_of(q.kind);
            if m != n {
                return m < n;
            }
            if !text::same(p.name.as_str(), q.name.as_str()) {
                return before(p.name.as_str(), q.name.as_str());
            }
            return before(p.share.as_str(), q.share.as_str());
        }
        assert(xv.skip(i as int).drop_first() =~= xv.skip(i + 1));
        assert(yv.skip(i as int).drop_first() =~= yv.skip(i + 1));
        i = i + 1;
    }
    true
}

/// Whether the two texts are one path.
pub fn is_same_path(a: &str, b: &str) -> (r: bool)
    ensures
        r == same_path(a@, b@),
{
    let x: Vec<Part> = path_parts(a);
    let y: Vec<Part> = path_parts(b);
    let ghost xv = parts(a@);
    let ghost yv = parts(b@);
    assert(xv.len() == x@.len() && yv.len() == y@.len());
    if x.len() != y.len() {
        return false;
    }
    let mut i: usize = 0;
    while i < x.len()
        invariant
            part_views(x@) == xv,
            part_views(y@) == yv,
            xv == parts(a@),
            yv == parts(b@),
            x@.len() == y@.len(),
            i <= x@.len(),
            forall|j: int| 0 <= j < i ==> #[trigger] xv[j] == yv[j],
        decreases x@.len() - i,
    {
        assert(xv[i as int] == x@[i as int]@ && yv[i as int] == y@[i as int]@);
        if !same_part(&x[i], &y[i]) {
            return false;
        }
        i = i + 1;
    }
    assert(xv =~= yv);
    true
}

// ---------------------------------------------------------------- finding a path

/// Number of the first entry of a list that is this path.
pub open spec fn path_at(list: Seq<Seq<char>>, path: Seq<char>) -> Option<int>
    decreases list.len(),
{
    if list.len() == 0 {
        None
    } else {
        match path_at(list.drop_last(), path) {
            Some(i) => Some(i),
            None => if same_path(list.last(), path) {
                Some(list.len() - 1)
            } else {
                None
            },
        }
    }
}

/// What is found is the path, nothing before it is, and where nothing is found the list does not hold
/// it.
pub proof fn lemma_path_at(list: Seq<Seq<char>>, path: Seq<char>)
    ensures
        match path_at(list, path) {
            Some(i) => 0 <= i < list.len() && same_path(list[i], path) && forall|j: int|
                0 <= j < i ==> !same_path(#[trigger] list[j], path),
            None => forall|j: int| 0 <= j < list.len() ==> !same_path(#[trigger] list[j], path),
        },
    decreases list.len(),
{
    if list.len() > 0 {
        let init = list.drop_last();
        lemma_path_at(init, path);
        assert forall|j: int| 0 <= j < init.len() implies init[j] == #[trigger] list[j] by {}
        match path_at(init, path) {
            Some(i) => {
                assert(list[i] == init[i]);
                assert forall|j: int| 0 <= j < i implies !same_path(#[trigger] list[j], path) by {
                    assert(init[j] == list[j]);
                }
            },
            None => {
                assert forall|j: int| 0 <= j < init.len() implies !same_path(
                    #[trigger] list[j],
                    path,
                ) by {
                    assert(init[j] == list[j]);
                }
            },
        }
    }
}

/// Number of the first entry of a list that is this path.
pub fn find_path(list: &Vec<String>, path: &str) -> (r: Option<usize>)
    ensures
        match r {
            Some(i) => path_at(text::views(list@), path@) == Some(i as int) && i < list@.len(),
            None => path_at(text::views(list@), path@) is None,
        },
{
    let ghost lv = text::views(list@);
    let mut found: Option<usize> = None;
    let mut i: usize = 0;
    while i < list.len()
        invariant
            i <= list@.len(),
            lv == text::views(list@),
            match found {
                Some(k) => path_at(lv.take(i as int), path@) == Some(k as int) && k < i,
                None => path_at(lv.take(i as int), path@) is None,
            },
        decreases list@.len() - i,
    {
        proof {
            assert(lv.take(i + 1).drop_last() =~= lv.take(i as int));
            assert(lv.take(i + 1).last() == list@[i as int]@);
        }
        if found.is_none() && is_same_path(list[i].as_str(), path) {
            found = Some(i);
        }
        i = i + 1;
    }
    assert(lv.take(i as int) =~= lv);
    found
}

// ---------------------------------------------------------------- plain paths

/// A name that is a part of its own: not empty, none of the two names with a meaning, and without
/// separators.
pub open spec fn plain_name(s: Seq<char>) -> bool {
    s.len() > 0 && s != "."@ && s != ".."@ && !s.contains('/') && !s.contains('\\')
}

/// The parts of a path on a drive are the drive, the root and the names, each as it is written, whatever
/// separator stands between them; only the case of the drive makes no difference.
pub proof fn lemma_plain_path(drive: char, names: Seq<Seq<char>>, k: int)
    requires
        is_letter(drive),
        names.len() > 0,
        forall|i: int| 0 <= i < names.len() ==> plain_name(#[trigger] names[i]),
    ensures
        ({
            let body = text::join(names, seq!['/']);
            let p = parts(seq![drive, ':', '/'] + body);
            &&& p.len() == names.len() + 2
            &&& p[0].kind == PartKind::Drive && p[0].name == seq![drive_letter(drive)]
            &&& p[1].kind == PartKind::Root
            &&& 0 <= k < names.len() ==> p[k + 2].kind == PartKind::Name && p[k + 2].name == names[k]
        }),
{
    let body = text::join(names, seq!['/']);
    let path = seq![drive, ':', '/'] + body;
    let rest = path.skip(2);
    assert(!is_sep(drive));
    assert(rest =~= seq!['/'] + body);
    assert(rest.skip(1) =~= body);
    assert forall|i: int| 0 <= i < names.len() implies !(#[trigger] names[i]).contains('/') by {
        assert(plain_name(names[i]));
    }
    crate::text_laws::lemma_join_split(names, '/');
    lemma_join_slashed(names);
    lemma_plain_parts(names, false, k);
    let below = piece_parts(names, false, false);
    assert(parts(path) =~= seq![named(PartKind::Drive, seq![drive_letter(drive)])] + (seq![
        bare(PartKind::Root),
    ] + below));
}

proof fn lemma_join_slashed(names: Seq<Seq<char>>)
    requires
        forall|i: int| 0 <= i < names.len() ==> plain_name(#[trigger] names[i]),
    ensures
        slashed(text::join(names, seq!['/'])) == text::join(names, seq!['/']),
    decreases names.len(),
{
    let body = text::join(names, seq!['/']);
    if names.len() > 0 {
        let init = names.drop_last();
        assert forall|i: int| 0 <= i < init.len() implies plain_name(#[trigger] init[i]) by {
            assert(init[i] == names[i]);
        }
        lemma_join_slashed(init);
        let last = names.last();
        assert(plain_name(names[names.len() - 1]));
        assert forall|i: int| 0 <= i < last.len() implies last[i] != '\\' by {}
        let before = text::join(init, seq!['/']);
        assert forall|i: int| 0 <= i < before.len() implies before[i] != '\\' by {
            assert(slashed(before)[i] == slash(before[i]));
        }
        assert forall|i: int| 0 <= i < body.len() implies slash(#[trigger] body[i]) == body[i] by {
            if names.len() > 1 {
                if i < before.len() {
                    assert(body[i] == before[i]);
                } else if i > before.len() {
                    assert(body[i] == last[i - before.len() - 1]);
                }
            } else {
                assert(body[i] == last[i]);
            }
        }
    }
    assert(slashed(body) =~= body);
}

proof fn lemma_plain_parts(names: Seq<Seq<char>>, open: bool, k: int)
    requires
        forall|i: int| 0 <= i < names.len() ==> plain_name(#[trigger] names[i]),
    ensures
        piece_parts(names, false, open).len() == names.len(),
        0 <= k < names.len() ==> piece_parts(names, false, open)[k] == named(
            PartKind::Name,
            names[k],
        ),
    decreases names.len(),
{
    if names.len() > 0 {
        let init = names.drop_last();
        assert forall|i: int| 0 <= i < init.len() implies plain_name(#[trigger] init[i]) by {
            assert(init[i] == names[i]);
        }
        lemma_plain_parts(init, open, k);
        assert(plain_name(names[names.len() - 1]));
    }
}

/// Paths are ordered by the first part in which they differ, and names by the first character; a path and
/// a name come before what continues them.
pub proof fn lemma_order_decides(
    common: Seq<PartV>,
    x: PartV,
    y: PartV,
    a: Seq<PartV>,
    b: Seq<PartV>,
)
    requires
        x != y,
    ensures
        parts_le(common + seq![x] + a, common + seq![y] + b) == part_before(x, y),
        parts_le(common, common + a),
        a.len() > 0 ==> !parts_le(common + a, common),
    decreases common.len(),
{
    let p = common + seq![x] + a;
    let q = common + seq![y] + b;
    if common.len() > 0 {
        let rest = common.drop_first();
        lemma_order_decides(rest, x, y, a, b);
        assert(p.drop_first() =~= rest + seq![x] + a);
        assert(q.drop_first() =~= rest + seq![y] + b);
        assert((common + a).drop_first() =~= rest + a);
    } else {
        assert(common + a =~= a);
    }
}

/// Names are ordered by the first character in which they differ; a name comes before what continues it.
pub proof fn lemma_name_order(common: Seq<char>, x: char, y: char, a: Seq<char>, b: Seq<char>)
    requires
        x != y,
    ensures
        name_before(common + seq![x] + a, common + seq![y] + b) == ((x as u32) < (y as u32)),
        a.len() > 0 ==> name_before(common, common + a) && !name_before(common + a, common),
    decreases common.len(),
{
    let p = common + seq![x] + a;
    let q = common + seq![y] + b;
    if common.len() > 0 {
        let rest = common.drop_first();
        lemma_name_order(rest, x, y, a, b);
        assert(p.drop_first() =~= rest + seq![x] + a);
        assert(q.drop_first() =~= rest + seq![y] + b);
        assert((common + a).drop_first() =~= rest + a);
    } else {
        assert(common + a =~= a);
    }
}

/// The parts of a path that begins with a name are the names alone.
pub proof fn lemma_relative_path(names: Seq<Seq<char>>, k: int)
    requires
        names.len() > 0,
        forall|i: int| 0 <= i < names.len() ==> plain_name(#[trigger] names[i]),
        !names[0].contains(':'),
    ensures
        ({
            let p = parts(text::join(names, seq!['/']));
            &&& p.len() == names.len()
            &&& 0 <= k < names.len() ==> p[k].kind == PartKind::Name && p[k].name == names[k]
        }),
{
    let body = text::join(names, seq!['/']);
    assert(plain_name(names[0]));
    lemma_join_begins(names);
    assert(names[0][0] != '/' && names[0][0] != '\\');
    if names[0].len() > 1 {
        assert(body[1] == names[0][1] && names[0][1] != ':');
    }
    assert forall|i: int| 0 <= i < names.len() implies !(#[trigger] names[i]).contains('/') by {
        assert(plain_name(names[i]));
    }
    crate::text_laws::lemma_join_split(names, '/');
    lemma_join_slashed(names);
    lemma_plain_parts(names, true, k);
    let below = piece_parts(names, false, true);
    assert(parts(body) =~= Seq::<PartV>::empty() + below);
}

proof fn lemma_join_begins(names: Seq<Seq<char>>)
    requires
        names.len() > 0,
        names[0].len() > 0,
    ensures
        ({
            let body = text::join(names, seq!['/']);
            &&& body.len() >= names[0].len()
            &&& body.take(names[0].len() as int) == names[0]
            &&& body.len() > names[0].len() ==> body[names[0].len() as int] == '/'
            &&& body[0] == names[0][0]
            &&& names[0].len() > 1 ==> body[1] == names[0][1]
        }),
    decreases names.len(),
{
    let body = text::join(names, seq!['/']);
    if names.len() == 1 {
        assert(body =~= names[0]);
        assert(body.take(names[0].len() as int) =~= names[0]);
    } else {
        let init = names.drop_last();
        lemma_join_begins(init);
        let before = text::join(init, seq!['/']);
        assert(body =~= before + seq!['/'] + names.last());
        assert(body.take(names[0].len() as int) =~= before.take(names[0].len() as int));
    }
}

proof fn lemma_head_of(name: Seq<char>, rest: Seq<char>, verbatim: bool)
    requires
        forall|i: int| 0 <= i < name.len() ==> !separates(#[trigger] name[i], verbatim),
        rest.len() == 0 || separates(rest[0], verbatim),
    ensures
        head(name + rest, verbatim) == name,
        head_len(name + rest, verbatim) == name.len(),
        behind_head(name + rest, verbatim) == if rest.len() == 0 {
            rest
        } else {
            rest.skip(1)
        },
{
    let s = name + rest;
    lemma_head_len(s, verbatim);
    let n = head_len(s, verbatim) as int;
    if n < name.len() {
        assert(s[n] == name[n]);
    }
    if n > name.len() {
        assert(s[name.len() as int] == rest[0]);
        assert(!separates(s[name.len() as int], verbatim));
    }
    assert(s.take(n) =~= name);
    if rest.len() == 0 {
        assert(behind_head(s, verbatim) =~= rest);
    } else {
        assert(s.skip(n + 1) =~= rest.skip(1));
    }
}

/// A name without separators.
pub open spec fn unbroken(s: Seq<char>) -> bool {
    s.len() > 0 && !s.contains('/') && !s.contains('\\')
}

proof fn lemma_unbroken(s: Seq<char>, verbatim: bool)
    requires
        unbroken(s),
    ensures
        forall|i: int| 0 <= i < s.len() ==> !separates(#[trigger] s[i], verbatim),
{
    assert forall|i: int| 0 <= i < s.len() implies !separates(#[trigger] s[i], verbatim) by {
        assert(s[i] != '/' && s[i] != '\\');
    }
}

/// Two separators, a server, a separator and a share are a prefix.
pub proof fn lemma_share(
    a: char,
    b: char,
    server: Seq<char>,
    c: char,
    share: Seq<char>,
    rest: Seq<char>,
)
    requires
        is_sep(a) && is_sep(b) && is_sep(c),
        unbroken(server) && server != "?"@ && server != "."@,
        unbroken(share),
        rest.len() == 0 || is_sep(rest[0]),
    ensures
        prefix_of(seq![a, b] + server + seq![c] + share + rest) == Some(
            PrefixV {
                part: PartV { kind: PartKind::Share, name: server, share },
                len: server.len() + share.len() + 3,
            },
        ),
{
    reveal_strlit("?");
    reveal_strlit(".");
    lemma_unbroken(server, false);
    lemma_unbroken(share, false);
    let more = seq![c] + share + rest;
    let s = seq![a, b] + server + seq![c] + share + rest;
    lemma_head_of(server, more, false);
    assert(more.skip(1) =~= share + rest);
    lemma_head_of(share, rest, false);
    assert(s.skip(2) =~= server + more);
    assert(s[2] == server[0]);
    if server.len() == 1 {
        assert(server =~= seq![server[0]]);
        assert("?"@ =~= seq!['?']);
        assert("."@ =~= seq!['.']);
    } else {
        assert(s[3] == server[1]);
    }
}

/// A server alone is no prefix.
pub proof fn lemma_server_alone(a: char, b: char, server: Seq<char>)
    requires
        is_sep(a) && is_sep(b),
        unbroken(server),
    ensures
        prefix_of(seq![a, b] + server) is None,
{
    lemma_unbroken(server, false);
    let alone = seq![a, b] + server;
    let none = Seq::<char>::empty();
    lemma_head_of(server, none, false);
    lemma_head_len(none, false);
    assert(server + none =~= server);
    assert(alone.skip(2) =~= server);
    if server.len() > 1 {
        assert(alone[3] == server[1]);
    }
    assert(head(none, false) =~= none);
}

/// A dot between separators begins a device.
pub proof fn lemma_device(a: char, b: char, c: char, name: Seq<char>, rest: Seq<char>)
    requires
        is_sep(a) && is_sep(b) && is_sep(c),
        name.len() == 0 || unbroken(name),
        rest.len() == 0 || is_sep(rest[0]),
    ensures
        prefix_of(seq![a, b, '.', c] + name + rest) == Some(
            PrefixV {
                part: PartV { kind: PartKind::Device, name, share: Seq::empty() },
                len: name.len() + 4,
            },
        ),
{
    if name.len() > 0 {
        lemma_unbroken(name, false);
    }
    let s = seq![a, b, '.', c] + name + rest;
    lemma_head_of(name, rest, false);
    assert(s.skip(4) =~= name + rest);
}

/// A question mark between backslashes begins a verbatim path, here on a drive.
pub proof fn lemma_verbatim_drive(drive: char, rest: Seq<char>)
    requires
        is_letter(drive),
        rest.len() == 0 || is_sep(rest[0]),
    ensures
        prefix_of(seq!['\\', '\\', '?', '\\', drive, ':'] + rest) == Some(
            PrefixV {
                part: PartV {
                    kind: PartKind::VerbatimDrive,
                    name: seq![drive_letter(drive)],
                    share: Seq::empty(),
                },
                len: 6,
            },
        ),
{
    let path = seq!['\\', '\\', '?', '\\', drive, ':'] + rest;
    let s = seq![drive, ':'] + rest;
    assert(path.skip(4) =~= s);
    if rest.len() > 0 {
        assert(s[2] == rest[0]);
    }
}

/// Behind `UNC` a verbatim path names a server and a share.
pub proof fn lemma_verbatim_share(server: Seq<char>, share: Seq<char>, rest: Seq<char>)
    requires
        unbroken(server) && unbroken(share),
        rest.len() == 0 || rest[0] == '\\',
    ensures
        prefix_of(
            seq!['\\', '\\', '?', '\\', 'U', 'N', 'C', '\\'] + server + seq!['\\'] + share + rest,
        ) == Some(
            PrefixV {
                part: PartV { kind: PartKind::VerbatimShare, name: server, share },
                len: server.len() + share.len() + 9,
            },
        ),
{
    lemma_unbroken(server, true);
    lemma_unbroken(share, true);
    let mark = seq!['\\', '\\', '?', '\\', 'U', 'N', 'C', '\\'];
    let path = mark + server + seq!['\\'] + share + rest;
    let more = seq!['\\'] + share + rest;
    lemma_head_of(server, more, true);
    assert(more.skip(1) =~= share + rest);
    lemma_head_of(share, rest, true);
    let s = path.skip(4);
    assert(s.skip(4) =~= server + more);
    assert(s[0] == 'U' && s[1] == 'N' && s[2] == 'C' && s[3] == '\\');
}

/// Another name in a verbatim path stands for itself.
pub proof fn lemma_verbatim_name(name: Seq<char>, rest: Seq<char>)
    requires
        unbroken(name) && !name.contains(':') && name != seq!['U', 'N', 'C'],
        rest.len() == 0 || rest[0] == '\\',
    ensures
        prefix_of(seq!['\\', '\\', '?', '\\'] + name + rest) == Some(
            PrefixV {
                part: PartV { kind: PartKind::Verbatim, name, share: Seq::empty() },
                len: name.len() + 4,
            },
        ),
{
    lemma_unbroken(name, true);
    let s = name + rest;
    let path = seq!['\\', '\\', '?', '\\'] + name + rest;
    assert(path.skip(4) =~= s);
    lemma_head_of(name, rest, true);
    if s.len() >= 4 && s[0] == 'U' && s[1] == 'N' && s[2] == 'C' && is_sep(s[3]) {
        if name.len() > 3 {
            assert(name[3] == s[3]);
        } else if name.len() == 3 {
            assert(name =~= seq!['U', 'N', 'C']);
        } else {
            assert(s[name.len() as int] == rest[0]);
        }
    }
    if has_drive(s) {
        if name.len() > 1 {
            assert(name[1] == s[1]);
        } else {
            assert(s[1] == rest[0]);
        }
    }
}

/// Behind the prefix of a share a path has a root, written or not.
#[verifier::rlimit(30)]
pub proof fn lemma_share_path(server: Seq<char>, share: Seq<char>, names: Seq<Seq<char>>, k: int)
    requires
        unbroken(server) && server != "?"@ && server != "."@,
        unbroken(share),
        names.len() > 0,
        forall|i: int| 0 <= i < names.len() ==> plain_name(#[trigger] names[i]),
    ensures
        ({
            let front = seq!['/', '/'] + server + seq!['/'] + share;
            let p = parts(front + (seq!['/'] + text::join(names, seq!['/'])));
            &&& p.len() == names.len() + 2
            &&& p[0] == PartV { kind: PartKind::Share, name: server, share }
            &&& p[1].kind == PartKind::Root
            &&& 0 <= k < names.len() ==> p[k + 2].kind == PartKind::Name && p[k + 2].name == names[k]
            &&& parts(front).len() == 2 && parts(front)[1].kind == PartKind::Root
        }),
{
    let body = text::join(names, seq!['/']);
    let front = seq!['/', '/'] + server + seq!['/'] + share;
    let rest = seq!['/'] + body;
    let path = front + rest;
    let none = Seq::<char>::empty();
    lemma_share('/', '/', server, '/', share, rest);
    lemma_share('/', '/', server, '/', share, none);
    assert(front + none =~= front);
    let n = (server.len() + share.len() + 3) as int;
    assert(path.skip(n) =~= rest);
    assert(front.skip(n) =~= none);
    assert(rest.skip(1) =~= body);
    assert forall|i: int| 0 <= i < names.len() implies !(#[trigger] names[i]).contains('/') by {
        assert(plain_name(names[i]));
    }
    crate::text_laws::lemma_join_split(names, '/');
    lemma_join_slashed(names);
    lemma_plain_parts(names, false, k);
    let below = piece_parts(names, false, false);
    let part = PartV { kind: PartKind::Share, name: server, share };
    assert(parts(path) =~= seq![part] + (seq![bare(PartKind::Root)] + below));
    assert(slashed(none) =~= none);
    text::lemma_split_whole(none, '/');
    assert(pieces_of(none, false) =~= seq![none]);
    assert(seq![none].drop_last() =~= Seq::<Seq<char>>::empty());
    reveal_with_fuel(piece_parts, 2);
    assert(piece_parts(seq![none], false, false) =~= Seq::<PartV>::empty());
    assert(parts(front) =~= seq![part] + (seq![bare(PartKind::Root)] + Seq::<PartV>::empty()));
}

/// Nothing between two separators is no part, two dots are a part of their own everywhere, and one dot is
/// one only at the start of a path without a prefix and in a verbatim path.
pub proof fn lemma_dots(pieces: Seq<Seq<char>>, verbatim: bool, open: bool)
    ensures
        ({
            let p = piece_parts(pieces, verbatim, open);
            &&& piece_parts(pieces.push(Seq::empty()), verbatim, open) == p
            &&& piece_parts(pieces.push(seq!['.', '.']), verbatim, open) == p.push(bare(PartKind::Up))
            &&& verbatim || (open && pieces.len() == 0) ==> piece_parts(
                pieces.push(seq!['.']),
                verbatim,
                open,
            ) == p.push(bare(PartKind::Here))
            &&& !verbatim && (!open || pieces.len() > 0) ==> piece_parts(
                pieces.push(seq!['.']),
                verbatim,
                open,
            ) == p
        }),
{
    reveal_strlit(".");
    reveal_strlit("..");
    assert("."@ =~= seq!['.']);
    assert(".."@ =~= seq!['.', '.']);
    assert(seq!['.', '.'].len() != seq!['.'].len());
    assert(pieces.push(Seq::empty()).drop_last() =~= pieces);
    assert(pieces.push(seq!['.', '.']).drop_last() =~= pieces);
    assert(pieces.push(seq!['.']).drop_last() =~= pieces);
}

/// The case of the letter of a drive makes no difference: a small letter stands for the capital one.
pub proof fn lemma_drive_case(small: char, capital: char, rest: Seq<char>)
    requires
        'a' <= small <= 'z',
        capital as int == small as int - ('a' as int - 'A' as int),
    ensures
        same_path(seq![small, ':'] + rest, seq![capital, ':'] + rest),
        parts(seq![small, ':'] + rest)[0] == (PartV {
            kind: PartKind::Drive,
            name: seq![capital],
            share: Seq::empty(),
        }),
{
    let a = seq![small, ':'] + rest;
    let b = seq![capital, ':'] + rest;
    assert(a.skip(2) =~= rest);
    assert(b.skip(2) =~= rest);
    assert(drive_letter(small) == capital);
    assert(drive_letter(capital) == capital);
}

} // verus!
