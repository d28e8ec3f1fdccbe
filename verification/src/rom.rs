//! The list of firmware images that the vendor publishes, and their download.

use vstd::prelude::*;
use vstd::string::*;

use crate::config::API_URL;
use crate::text;
use crate::text_laws;

verus! {

/// One firmware image: model name, where to download it, size in bytes (0 where it is not known).
pub struct RomInfo {
    pub name: String,
    pub url: String,
    pub size: u64,
}

/// What a firmware record says.
pub struct RomV {
    pub name: Seq<char>,
    pub url: Seq<char>,
    pub size: u64,
}

impl View for RomInfo {
    type V = RomV;

    open spec fn view(&self) -> RomV {
        RomV { name: self.name@, url: self.url@, size: self.size }
    }
}

/// What a list of firmware records says.
pub open spec fn rom_views(v: Seq<RomInfo>) -> Seq<RomV> {
    v.map_values(|r: RomInfo| r@)
}

// ---------------------------------------------------------------- addresses

/// `s` begins with `pat`, whatever the case of ASCII letters in `s`.
pub open spec fn begins(s: Seq<char>, pat: Seq<char>) -> bool {
    text::stands_at(text::lower_all(s), pat, 0)
}

/// The address without schemes in front of its last one: `http://` and `https://` go as long as
/// `http://` follows.
pub open spec fn clean_url(u: Seq<char>) -> Seq<char>
    decreases u.len(),
{
    if begins(u, "http://http://"@) && u.len() >= 7 {
        clean_url(u.skip(7))
    } else if begins(u, "https://http://"@) && u.len() >= 8 {
        clean_url(u.skip(8))
    } else {
        u
    }
}

fn begins_with(cs: &[char], pat: &str) -> (r: bool)
    ensures
        r == begins(cs@, pat@),
{
    let ps: Vec<char> = text::to_chars(pat);
    let n: usize = ps.len();
    if n > cs.len() {
        return false;
    }
    let ghost low = text::lower_all(cs@);
    let mut i: usize = 0;
    while i < n
        invariant
            i <= n,
            n == ps@.len(),
            ps@ == pat@,
            n <= cs@.len(),
            low == text::lower_all(cs@),
            forall|j: int| 0 <= j < i ==> #[trigger] low[j] == pat@[j],
        decreases n - i,
    {
        if text::lower_char(cs[i]) != ps[i] {
            assert(low.subrange(0, n as int)[i as int] != pat@[i as int]);
            return false;
        }
        i = i + 1;
    }
    assert(low.subrange(0, n as int) =~= pat@);
    true
}

/// Removes doubled schemes, which the published list contains.
pub fn sanitize_url(url: &str) -> (r: String)
    ensures
        r@ == clean_url(url@),
{
    let cs: Vec<char> = text::to_chars(url);
    let n: usize = cs.len();
    let mut from: usize = 0;
    assert(cs@.skip(0) =~= cs@);
    proof {
        reveal_strlit("http://http://");
        reveal_strlit("https://http://");
    }
    loop
        invariant
            n == cs@.len(),
            from <= n,
            clean_url(url@) == clean_url(cs@.skip(from as int)),
            "http://http://"@.len() == 14,
            "https://http://"@.len() == 15,
        ensures
            from <= n,
            clean_url(url@) == cs@.skip(from as int),
        decreases n - from,
    {
        let rest: &[char] = vstd::slice::slice_subrange(cs.as_slice(), from, n);
        assert(rest@ =~= cs@.skip(from as int));
        if begins_with(rest, "http://http://") {
            assert(rest@.skip(7) =~= cs@.skip(from + 7));
            from = from + 7;
        } else if begins_with(rest, "https://http://") {
            assert(rest@.skip(8) =~= cs@.skip(from + 8));
            from = from + 8;
        } else {
            break ;
        }
    }
    let rest: &[char] = vstd::slice::slice_subrange(cs.as_slice(), from, n);
    assert(rest@ =~= cs@.skip(from as int));
    text::from_chars(rest)
}

/// A cleaned address is a tail of the given one, has no doubled scheme, and stays as it is when cleaned
/// again.
pub proof fn lemma_clean_url(u: Seq<char>)
    ensures
        !begins(clean_url(u), "http://http://"@),
        !begins(clean_url(u), "https://http://"@),
        clean_url(clean_url(u)) == clean_url(u),
        clean_url(u).len() <= u.len(),
        clean_url(u) == u.skip(u.len() - clean_url(u).len()),
    decreases u.len(),
{
    reveal_strlit("http://http://");
    reveal_strlit("https://http://");
    if begins(u, "http://http://"@) {
        lemma_clean_url(u.skip(7));
        let c = clean_url(u);
        assert(u.skip(7).skip(u.skip(7).len() - c.len()) =~= u.skip(u.len() - c.len()));
    } else if begins(u, "https://http://"@) {
        lemma_clean_url(u.skip(8));
        let c = clean_url(u);
        assert(u.skip(8).skip(u.skip(8).len() - c.len()) =~= u.skip(u.len() - c.len()));
    } else {
        assert(u.skip(0) =~= u);
    }
}

/// What follows the first `c` of `s`, or all of `s` where `c` does not occur.
pub open spec fn after_first(s: Seq<char>, c: char) -> Seq<char> {
    let head = text::before_first(s, c).len();
    if head < s.len() {
        s.skip((head + 1) as int)
    } else {
        s
    }
}

/// What follows `://`, or the whole address.
pub open spec fn after_scheme(url: Seq<char>) -> Seq<char> {
    match text::find(url, "://"@) {
        Some(i) => url.skip(i + 3),
        None => url,
    }
}

/// The last component of the path of an address, without its query; `None` where it is empty.
pub open spec fn last_component(url: Seq<char>) -> Option<Seq<char>> {
    let path = text::before_first(after_first(after_scheme(url), '/'), '?');
    let base = text::after_last(path, '/');
    if base.len() == 0 {
        None
    } else {
        Some(base)
    }
}

/// The last component of the path of an address. Escapes are not decoded.
pub fn url_basename(url: &str) -> (r: Option<String>)
    ensures
        match r {
            Some(s) => last_component(url@) == Some(s@),
            None => last_component(url@) is None,
        },
{
    let cs: Vec<char> = text::to_chars(url);
    let n: usize = cs.len();
    let mark: Vec<char> = text::to_chars("://");
    proof {
        reveal_strlit("://");
    }
    let start: usize = match text::find_chars(cs.as_slice(), mark.as_slice(), 0) {
        Some(i) => i + 3,
        None => 0,
    };
    let rest: &[char] = vstd::slice::slice_subrange(cs.as_slice(), start, n);
    assert(rest@ =~= after_scheme(url@));
    let m: usize = rest.len();
    let head: usize = text::head_len(rest, '/');
    assert(text::before_first(rest@, '/').len() == head);
    let path: &[char] = if head < m {
        vstd::slice::slice_subrange(rest, head + 1, m)
    } else {
        rest
    };
    assert(path@ =~= after_first(rest@, '/'));
    let end: usize = text::head_len(path, '?');
    let path: &[char] = vstd::slice::slice_subrange(path, 0, end);
    assert(path@ =~= text::before_first(after_first(rest@, '/'), '?'));
    let last: usize = text::tail_start(path, '/');
    let base: &[char] = vstd::slice::slice_subrange(path, last, path.len());
    assert(base@ =~= text::after_last(path@, '/'));
    if base.len() == 0 {
        None
    } else {
        Some(text::from_chars(base))
    }
}

/// The name under which an image is stored holds no separator.
pub proof fn lemma_last_component_has_no_separator(url: Seq<char>)
    ensures
        last_component(url) matches Some(b) ==> b.len() > 0 && !b.contains('/'),
{
    let path = text::before_first(after_first(after_scheme(url), '/'), '?');
    text::lemma_after_last(path, '/');
}

// ---------------------------------------------------------------- the list

/// The record that three neighbouring pieces of the list give, if it has a name and an address. A size
/// that is no number counts as 0.
pub open spec fn record_of(name: Seq<char>, url: Seq<char>, size: Seq<char>) -> Option<RomV> {
    let r = RomV {
        name: text::trim(name),
        url: clean_url(text::trim(url)),
        size: match text::number_up_to(text::trim(size), u64::MAX as nat) {
            Some(n) => n as u64,
            None => 0,
        },
    };
    if r.name.len() > 0 && r.url.len() > 0 {
        Some(r)
    } else {
        None
    }
}

/// The records of the pieces from `i` on, three pieces each.
pub open spec fn records_from(parts: Seq<Seq<char>>, i: int) -> Seq<RomV>
    decreases parts.len() - i,
{
    if i < 0 || i + 2 >= parts.len() {
        Seq::empty()
    } else {
        let rest = records_from(parts, i + 3);
        match record_of(parts[i], parts[i + 1], parts[i + 2]) {
            Some(r) => seq![r] + rest,
            None => rest,
        }
    }
}

/// The records of a list `name|address|size|name|address|size|...`, with white space round it.
pub open spec fn list_of(body: Seq<char>) -> Seq<RomV> {
    records_from(text::split(text::trim(body), '|'), 0)
}

/// Every record of a list has a name and an address without doubled scheme.
pub proof fn lemma_list_is_clean(body: Seq<char>, k: int)
    requires
        0 <= k < list_of(body).len(),
    ensures
        list_of(body)[k].name.len() > 0,
        list_of(body)[k].url.len() > 0,
        !begins(list_of(body)[k].url, "http://http://"@),
        !begins(list_of(body)[k].url, "https://http://"@),
{
    lemma_records_are_clean(text::split(text::trim(body), '|'), 0, k);
}

proof fn lemma_records_are_clean(parts: Seq<Seq<char>>, i: int, k: int)
    requires
        0 <= i,
        0 <= k < records_from(parts, i).len(),
    ensures
        records_from(parts, i)[k].name.len() > 0,
        records_from(parts, i)[k].url.len() > 0,
        !begins(records_from(parts, i)[k].url, "http://http://"@),
        !begins(records_from(parts, i)[k].url, "https://http://"@),
    decreases parts.len() - i,
{
    let rest = records_from(parts, i + 3);
    match record_of(parts[i], parts[i + 1], parts[i + 2]) {
        Some(r) => {
            lemma_clean_url(text::trim(parts[i + 1]));
            assert(records_from(parts, i) == seq![r] + rest);
            if k > 0 {
                lemma_records_are_clean(parts, i + 3, k - 1);
            }
        },
        None => {
            lemma_records_are_clean(parts, i + 3, k);
        },
    }
}

/// The pieces are the same but for white space round them.
spec fn alike(p: Seq<Seq<char>>, q: Seq<Seq<char>>) -> bool {
    p.len() == q.len() && forall|i: int|
        0 <= i < p.len() ==> text::trim(#[trigger] p[i]) == text::trim(q[i])
}

proof fn lemma_alike_records(p: Seq<Seq<char>>, q: Seq<Seq<char>>, i: int)
    requires
        alike(p, q),
        0 <= i,
    ensures
        records_from(p, i) == records_from(q, i),
    decreases p.len() - i,
{
    if i + 2 < p.len() {
        lemma_alike_records(p, q, i + 3);
        assert(text::trim(p[i]) == text::trim(q[i]));
        assert(text::trim(p[i + 1]) == text::trim(q[i + 1]));
        assert(text::trim(p[i + 2]) == text::trim(q[i + 2]));
    }
}

proof fn lemma_split_first(c: char, s: Seq<char>)
    requires
        c != '|',
    ensures
        ({
            let p = text::split(s, '|');
            text::split(seq![c] + s, '|') == seq![seq![c] + p[0]] + p.drop_first()
        }),
    decreases s.len(),
{
    let whole = seq![c] + s;
    text::lemma_split_join(s, '|');
    if s.len() == 0 {
        let none = Seq::<char>::empty();
        assert(s =~= none);
        assert(whole =~= seq![c]);
        assert(whole.drop_last() =~= none);
        assert(text::split(whole, '|') =~= seq![seq![c]]);
        assert(seq![c] + none =~= seq![c]);
        assert(text::split(s, '|').drop_first() =~= Seq::<Seq<char>>::empty());
    } else {
        let init = s.drop_last();
        lemma_split_first(c, init);
        text::lemma_split_join(init, '|');
        assert(whole.drop_last() =~= seq![c] + init);
        let b = text::split(init, '|');
        let wb = seq![seq![c] + b[0]] + b.drop_first();
        let p = text::split(s, '|');
        if s.last() == '|' {
            assert(p == b.push(Seq::<char>::empty()));
            assert(text::split(whole, '|') =~= seq![seq![c] + p[0]] + p.drop_first());
        } else {
            assert(p == b.drop_last().push(b.last().push(s.last())));
            if b.len() == 1 {
                assert(wb.last() == seq![c] + b[0]);
                assert((seq![c] + b[0]).push(s.last()) =~= seq![c] + b[0].push(s.last()));
            } else {
                assert(wb.last() == b.last());
            }
            assert(text::split(whole, '|') =~= seq![seq![c] + p[0]] + p.drop_first());
        }
    }
}

proof fn lemma_trim_start_alike(s: Seq<char>)
    ensures
        alike(text::split(text::trim_start(s), '|'), text::split(s, '|')),
    decreases s.len(),
{
    if s.len() > 0 && text::is_white(s[0]) {
        let rest = s.drop_first();
        lemma_trim_start_alike(rest);
        assert(s =~= seq![s[0]] + rest);
        lemma_split_first(s[0], rest);
        text::lemma_split_join(rest, '|');
        let p = text::split(rest, '|');
        let q = text::split(s, '|');
        text::lemma_trim_ignores(p[0], s[0]);
        let t = text::split(text::trim_start(rest), '|');
        assert forall|i: int| 0 <= i < t.len() implies text::trim(#[trigger] t[i]) == text::trim(
            q[i],
        ) by {
            assert(text::trim(t[i]) == text::trim(p[i]));
            if i > 0 {
                assert(q[i] == p[i]);
            }
        }
    }
}

proof fn lemma_trim_end_alike(s: Seq<char>)
    ensures
        alike(text::split(text::trim_end(s), '|'), text::split(s, '|')),
    decreases s.len(),
{
    if s.len() > 0 && text::is_white(s.last()) {
        let init = s.drop_last();
        lemma_trim_end_alike(init);
        text::lemma_split_join(init, '|');
        let p = text::split(init, '|');
        let q = text::split(s, '|');
        assert(q == p.drop_last().push(p.last().push(s.last())));
        text::lemma_trim_ignores(p.last(), s.last());
        let t = text::split(text::trim_end(init), '|');
        assert forall|i: int| 0 <= i < t.len() implies text::trim(#[trigger] t[i]) == text::trim(
            q[i],
        ) by {
            assert(text::trim(t[i]) == text::trim(p[i]));
            if i < p.len() - 1 {
                assert(q[i] == p[i]);
            }
        }
    }
}

/// White space round a list makes no difference.
proof fn lemma_list_untrimmed(body: Seq<char>)
    ensures
        list_of(body) == records_from(text::split(body, '|'), 0),
{
    let t = text::trim_start(body);
    lemma_trim_start_alike(body);
    lemma_trim_end_alike(t);
    lemma_alike_records(text::split(text::trim(body), '|'), text::split(t, '|'), 0);
    lemma_alike_records(text::split(t, '|'), text::split(body, '|'), 0);
}

proof fn lemma_records_concat(p: Seq<Seq<char>>, q: Seq<Seq<char>>, i: int)
    requires
        0 <= i <= p.len(),
        (p.len() - i) % 3 == 0,
    ensures
        records_from(p + q, i) == records_from(p, i) + records_from(q, 0),
    decreases p.len() - i,
{
    let whole = p + q;
    if i == p.len() {
        lemma_records_shift(p, q, 0);
        assert(records_from(p, i) + records_from(q, 0) =~= records_from(q, 0));
    } else {
        lemma_records_concat(p, q, i + 3);
        assert(whole[i] == p[i] && whole[i + 1] == p[i + 1] && whole[i + 2] == p[i + 2]);
        assert(records_from(whole, i) =~= records_from(p, i) + records_from(q, 0));
    }
}

proof fn lemma_records_shift(p: Seq<Seq<char>>, q: Seq<Seq<char>>, j: int)
    requires
        0 <= j,
    ensures
        records_from(p + q, p.len() + j) == records_from(q, j),
    decreases q.len() - j,
{
    if j + 2 < q.len() {
        lemma_records_shift(p, q, j + 3);
    }
}

/// A text of whole records, a bar and another text give the records of the first and then those of the
/// second: a record that is left out never shifts those behind it.
pub proof fn lemma_lists_concat(a: Seq<char>, b: Seq<char>)
    requires
        text::split(a, '|').len() % 3 == 0,
    ensures
        list_of(a + seq!['|'] + b) == list_of(a) + list_of(b),
{
    lemma_list_untrimmed(a);
    lemma_list_untrimmed(b);
    lemma_list_untrimmed(a + seq!['|'] + b);
    text::lemma_split_concat(a, '|', b);
    lemma_records_concat(text::split(a, '|'), text::split(b, '|'), 0);
}

/// What the size of a record is taken for: the number that it writes out, or 0 where it writes out none of
/// 64 bits.
pub open spec fn size_number(size: Seq<char>) -> nat {
    match text::number_of(text::trim(size)) {
        Some(n) => if n <= u64::MAX {
            n
        } else {
            0
        },
        None => 0,
    }
}

/// A record is left out only where nothing is left of its name or of its address: any other is listed,
/// alone where it stands alone, with its trimmed name, its cleaned address and the number that its size
/// is, whatever that number.
pub proof fn lemma_record_is_listed(name: Seq<char>, url: Seq<char>, size: Seq<char>)
    requires
        !name.contains('|'),
        !url.contains('|'),
        !size.contains('|'),
    ensures
        ({
            let list = list_of(name + seq!['|'] + url + seq!['|'] + size);
            if text::trim(name).len() > 0 && clean_url(text::trim(url)).len() > 0 {
                &&& list.len() == 1
                &&& list[0].name == text::trim(name)
                &&& list[0].url == clean_url(text::trim(url))
                &&& list[0].size == size_number(size)
            } else {
                list.len() == 0
            }
        }),
{
    let body = name + seq!['|'] + url + seq!['|'] + size;
    lemma_list_untrimmed(body);
    text::lemma_split_whole(name, '|');
    text::lemma_split_whole(url, '|');
    text::lemma_split_whole(size, '|');
    text::lemma_split_concat(name + seq!['|'] + url, '|', size);
    text::lemma_split_concat(name, '|', url);
    let parts = text::split(body, '|');
    assert(parts =~= seq![name, url, size]);
    assert(records_from(parts, 3) == Seq::<RomV>::empty());
}

/// A text with fewer than three fields lists nothing.
pub proof fn lemma_no_whole_record(body: Seq<char>)
    requires
        text::split(body, '|').len() < 3,
    ensures
        list_of(body) == Seq::<RomV>::empty(),
{
    lemma_list_untrimmed(body);
}

/// An address loses the first of two schemes where both stand before it, whatever their case, and is
/// cleaned further; any other address stays as it is.
pub proof fn lemma_clean_step(u: Seq<char>)
    ensures
        ({
            let http = u.len() >= 14 && text::same_letters(u.take(14), "http://http://"@);
            let https = u.len() >= 15 && text::same_letters(u.take(15), "https://http://"@);
            &&& http ==> clean_url(u) == clean_url(u.skip(7))
            &&& https ==> clean_url(u) == clean_url(u.skip(8))
            &&& !http && !https ==> clean_url(u) == u
        }),
{
    reveal_strlit("http://http://");
    reveal_strlit("https://http://");
    let a = "http://http://"@;
    let b = "https://http://"@;
    let l = text::lower_all(u);
    assert(text::lower_all(a) =~= a);
    assert(text::lower_all(b) =~= b);
    if u.len() >= 14 {
        assert(text::lower_all(u.take(14)) =~= l.subrange(0, 14));
    }
    if u.len() >= 15 {
        assert(text::lower_all(u.take(15)) =~= l.subrange(0, 15));
    }
    assert(a[4] == ':' && b[4] == 's');
    if text::stands_at(l, a, 0) && text::stands_at(l, b, 0) {
        assert(l.subrange(0, 14)[4] == l[4]);
        assert(l.subrange(0, 15)[4] == l[4]);
    }
}

/// The file of an address is what stands between the last slash of its path and its query; scheme and
/// host play no part in it.
pub proof fn lemma_file_of_address(
    scheme: Seq<char>,
    host: Seq<char>,
    dirs: Seq<char>,
    file: Seq<char>,
    query: Seq<char>,
)
    requires
        !scheme.contains(':'),
        !host.contains('/'),
        !dirs.contains('?'),
        file.len() > 0,
        !file.contains('/'),
        !file.contains('?'),
    ensures
        ({
            let path = scheme + "://"@ + host + seq!['/'] + dirs + seq!['/'] + file;
            &&& last_component(path) == Some(file)
            &&& last_component(path + seq!['?'] + query) == Some(file)
            &&& stored_name(path) == file
            &&& stored_name(path + seq!['?'] + query) == file
        }),
{
    let tail = dirs + seq!['/'] + file;
    assert(!tail.contains('?')) by {
        assert forall|i: int| 0 <= i < tail.len() implies tail[i] != '?' by {
            if i < dirs.len() {
                assert(tail[i] == dirs[i]);
            } else if i > dirs.len() {
                assert(tail[i] == file[i - dirs.len() - 1]);
            }
        }
    }
    text_laws::lemma_before_first(tail, '?', query);
    lemma_file_behind(scheme, host, dirs, file, tail, tail);
    let more = tail + seq!['?'] + query;
    lemma_file_behind(scheme, host, dirs, file, tail, more);
    let path = scheme + "://"@ + host + seq!['/'] + dirs + seq!['/'] + file;
    assert(path =~= scheme + "://"@ + host + seq!['/'] + tail);
    assert(path + seq!['?'] + query =~= scheme + "://"@ + host + seq!['/'] + more);
}

proof fn lemma_file_behind(
    scheme: Seq<char>,
    host: Seq<char>,
    dirs: Seq<char>,
    file: Seq<char>,
    tail: Seq<char>,
    more: Seq<char>,
)
    requires
        !scheme.contains(':'),
        !host.contains('/'),
        file.len() > 0,
        !file.contains('/'),
        tail == dirs + seq!['/'] + file,
        text::before_first(more, '?') == tail,
    ensures
        last_component(scheme + "://"@ + host + seq!['/'] + more) == Some(file),
{
    reveal_strlit("://");
    let url = scheme + "://"@ + host + seq!['/'] + more;
    let n = scheme.len() as int;
    assert(text::stands_at(url, "://"@, n)) by {
        assert(url.subrange(n, n + 3) =~= "://"@);
    }
    assert forall|j: int| 0 <= j < n implies !text::stands_at(url, "://"@, j) by {
        assert(scheme[j] != ':');
        assert(url[j] == scheme[j]);
        if text::stands_at(url, "://"@, j) {
            assert(url.subrange(j, j + 3)[0] == url[j]);
        }
    }
    text_laws::lemma_found(url, "://"@, n);
    let rest = host + seq!['/'] + more;
    assert(after_scheme(url) =~= rest);
    text_laws::lemma_before_first(host, '/', more);
    assert(after_first(rest, '/') =~= more);
    text_laws::lemma_behind_last(dirs, '/', file);
}

/// A download is warned about exactly where the list gives a size and it is not the size that came.
pub proof fn lemma_size_warning(size: u64, total: u64)
    ensures
        size_warning(size, total) is Some <==> size > 0 && total != size,
{
}

fn read_record(name: &str, url: &str, size: &str) -> (r: Option<RomInfo>)
    ensures
        match r {
            Some(x) => record_of(name@, url@, size@) == Some(x@),
            None => record_of(name@, url@, size@) is None,
        },
{
    let name: String = text::trim_text(name);
    let trimmed: String = text::trim_text(url);
    let url: String = sanitize_url(trimmed.as_str());
    let digits: String = text::trim_text(size);
    let size: u64 = match text::parse_up_to(digits.as_str(), u64::MAX) {
        Some(n) => n,
        None => 0,
    };
    proof {
        reveal_strlit("");
    }
    if text::same(name.as_str(), "") || text::same(url.as_str(), "") {
        return None;
    }
    proof {
        if name@.len() == 0 {
            assert(name@ =~= ""@);
        }
        if url@.len() == 0 {
            assert(url@ =~= ""@);
        }
    }
    Some(RomInfo { name, url, size })
}

/// Reads the list.
pub fn parse(body: &str) -> (r: Vec<RomInfo>)
    ensures
        rom_views(r@) == list_of(body@),
{
    let inner: String = text::trim_text(body);
    let parts: Vec<String> = text::split_text(inner.as_str(), '|');
    let n: usize = parts.len();
    let ghost pv = text::views(parts@);
    let mut list: Vec<RomInfo> = Vec::new();
    let mut i: usize = 0;
    assert(rom_views(list@) + records_from(pv, 0) =~= list_of(body@));
    while i < n && n - i > 2
        invariant
            n == parts@.len(),
            pv == text::views(parts@),
            i <= n,
            rom_views(list@) + records_from(pv, i as int) == list_of(body@),
        decreases n - i,
    {
        let ghost before = rom_views(list@);
        let ghost rest = records_from(pv, i + 3);
        match read_record(parts[i].as_str(), parts[i + 1].as_str(), parts[i + 2].as_str()) {
            Some(x) => {
                let ghost xv = x@;
                list.push(x);
                assert(rom_views(list@) =~= before.push(xv));
                assert(before.push(xv) + rest =~= before + (seq![xv] + rest));
            },
            None => {},
        }
        i = i + 3;
    }
    assert(rom_views(list@) + Seq::<RomV>::empty() =~= rom_views(list@));
    list
}

// ---------------------------------------------------------------- fetching

/// Why a request over HTTP failed.
pub enum FetchError {
    /// The server answered with a status that means failure.
    Status(u16),
    /// No answer, with the reason.
    Transport(String),
}

/// What a failure says.
pub open spec fn failure_text(e: FetchError) -> Seq<char> {
    match e {
        FetchError::Status(code) => "HTTP "@ + text::dec(code as nat),
        FetchError::Transport(t) => t@,
    }
}

/// What a failure says.
pub fn fetch_error_text(e: FetchError) -> (r: String)
    ensures
        r@ == failure_text(e),
{
    match e {
        FetchError::Status(code) => {
            let mut s: String = "HTTP ".to_owned();
            text::push_dec(&mut s, code as u64);
            s
        },
        FetchError::Transport(t) => t,
    }
}

/// What came of the request for the list.
pub enum ListReply {
    /// The request failed.
    Failed(FetchError),
    /// The body could not be read, with the reason.
    Unreadable(String),
    Body(String),
}

/// Where the list is fetched from.
pub fn list_url(api_url: Option<&str>) -> (r: String)
    ensures
        r@ == match api_url {
            Some(u) => u@,
            None => API_URL@,
        },
{
    match api_url {
        Some(u) => u.to_owned(),
        None => API_URL.to_owned(),
    }
}

/// What a reply to the question for the list gives.
pub open spec fn fetched(reply: ListReply) -> Result<Seq<RomV>, Seq<char>> {
    match reply {
        ListReply::Failed(e) => Err(failure_text(e)),
        ListReply::Unreadable(e) => Err("读取响应失败: "@ + e@),
        ListReply::Body(b) => Ok(list_of(b@)),
    }
}

/// The list, or why it could not be fetched.
pub fn fetch_list(reply: ListReply) -> (r: Result<Vec<RomInfo>, String>)
    ensures
        match reply {
            ListReply::Failed(e) => r matches Err(t) && t@ == failure_text(e),
            ListReply::Unreadable(e) => r matches Err(t) && t@ == "读取响应失败: "@ + e@,
            ListReply::Body(b) => r matches Ok(v) && rom_views(v@) == list_of(b@),
        },
        match r {
            Ok(v) => fetched(reply) == Ok::<Seq<RomV>, Seq<char>>(rom_views(v@)),
            Err(e) => fetched(reply) == Err::<Seq<RomV>, Seq<char>>(e@),
        },
{
    match reply {
        ListReply::Failed(e) => Err(fetch_error_text(e)),
        ListReply::Unreadable(e) => {
            let mut s: String = "读取响应失败: ".to_owned();
            s.append(e.as_str());
            Err(s)
        },
        ListReply::Body(b) => Ok(parse(b.as_str())),
    }
}

// ---------------------------------------------------------------- download

/// The name under which an image is stored, which is the name that the router asks for.
pub open spec fn stored_name(url: Seq<char>) -> Seq<char> {
    match last_component(url) {
        Some(b) => b,
        None => "firmware.bin"@,
    }
}

/// The name under which an image is stored.
pub fn download_name(rom: &RomInfo) -> (r: String)
    ensures
        r@ == stored_name(rom@.url),
{
    match url_basename(rom.url.as_str()) {
        Some(b) => b,
        None => "firmware.bin".to_owned(),
    }
}

/// What happened to a running download.
pub enum DownloadEvent {
    /// This many bytes were read and written; 0 is the end.
    Data(u64),
    /// Bytes could not be written, with the reason.
    WriteFailed(String),
    /// Bytes could not be read, with the reason.
    ReadFailed(String),
}

/// What is to be done in a running download.
pub enum DownloadAction {
    /// Go on; so many bytes have come in.
    Progress(u64),
    /// The file is complete; a warning, if there is one.
    Done(Option<String>),
    /// Delete the incomplete file, so that it is not taken for an image, and report why.
    Abort(String),
}

/// The warning about a size that differs from the published one. The published sizes are not
/// reliable, so the file is kept.
pub open spec fn size_warning(size: u64, total: u64) -> Option<Seq<char>> {
    if size > 0 && total != size {
        Some(
            "[WRN] 刷机包大小与云端列表不一致（列表 "@ + text::dec(size as nat)
                + " 字节，实际 "@ + text::dec(total as nat)
                + " 字节），已按实际大小保留，不影响刷机"@,
        )
    } else {
        None
    }
}

/// What an event of a download leads to, with `total` bytes so far of an image that the list gives `size`
/// bytes.
pub open spec fn downloads(size: u64, total: u64, event: DownloadEvent, r: DownloadAction) -> bool {
    match r {
        DownloadAction::Progress(t) => event matches DownloadEvent::Data(n) && n > 0 && t == total + n,
        DownloadAction::Done(w) => event == DownloadEvent::Data(0) && (w is Some <==> size_warning(
            size,
            total,
        ) is Some),
        DownloadAction::Abort(e) => !(event is Data),
    }
}

/// A download goes on after an event: `total` bytes have come in so far.
pub fn download_step(rom: &RomInfo, total: u64, event: DownloadEvent) -> (r: DownloadAction)
    requires
        event matches DownloadEvent::Data(n) ==> total + n <= u64::MAX,
    ensures
        match event {
            DownloadEvent::Data(n) => if n == 0 {
                r matches DownloadAction::Done(w) && match w {
                    Some(w) => size_warning(rom.size, total) == Some(w@),
                    None => size_warning(rom.size, total) is None,
                }
            } else {
                r matches DownloadAction::Progress(t) && t == total + n
            },
            DownloadEvent::WriteFailed(e) => r matches DownloadAction::Abort(t) && t@
                == "写入文件失败: "@ + e@,
            DownloadEvent::ReadFailed(e) => r matches DownloadAction::Abort(t) && t@ == e@,
        },
        downloads(rom.size, total, event, r),
{
    match event {
        DownloadEvent::Data(n) => {
            if n > 0 {
                return DownloadAction::Progress(total + n);
            }
            if rom.size > 0 && total != rom.size {
                let mut s: String =
                    "[WRN] 刷机包大小与云端列表不一致（列表 ".to_owned();
                text::push_dec(&mut s, rom.size);
                s.append(" 字节，实际 ");
                text::push_dec(&mut s, total);
                s.append(" 字节），已按实际大小保留，不影响刷机");
                DownloadAction::Done(Some(s))
            } else {
                DownloadAction::Done(None)
            }
        },
        DownloadEvent::WriteFailed(e) => {
            let mut s: String = "写入文件失败: ".to_owned();
            s.append(e.as_str());
            DownloadAction::Abort(s)
        },
        DownloadEvent::ReadFailed(e) => DownloadAction::Abort(e),
    }
}

/// Bytes that came in are counted, the end of them ends the download, whatever their number, and a failure
/// to read or to write breaks it off. The end is warned about exactly where the list gives another size.
pub proof fn lemma_download(size: u64, total: u64, event: DownloadEvent, r: DownloadAction)
    requires
        downloads(size, total, event, r),
    ensures
        event matches DownloadEvent::Data(n) ==> {
            &&& n > 0 ==> (r matches DownloadAction::Progress(t) && t == total + n)
            &&& n == 0 ==> (r matches DownloadAction::Done(w) && (w is Some <==> size > 0 && total
                != size))
        },
        event is WriteFailed || event is ReadFailed ==> r is Abort,
{
}

/// A list is there exactly where a body came, and then it is that of the body. A failure gives its status
/// or its reason.
pub proof fn lemma_fetched(reply: ListReply)
    ensures
        fetched(reply) is Ok <==> reply is Body,
        reply matches ListReply::Body(b) ==> fetched(reply) == Ok::<Seq<RomV>, Seq<char>>(list_of(b@)),
        reply matches ListReply::Failed(FetchError::Status(code)) ==> fetched(reply) == Err::<
            Seq<RomV>,
            Seq<char>,
        >("HTTP "@ + text::dec(code as nat)),
        reply matches ListReply::Failed(FetchError::Transport(t)) ==> fetched(reply) == Err::<
            Seq<RomV>,
            Seq<char>,
        >(t@),
{
}

/// An address whose path ends with a slash names no file, and its image is stored under a name of its own.
pub proof fn lemma_no_file(scheme: Seq<char>, host: Seq<char>, dirs: Seq<char>)
    requires
        !scheme.contains(':'),
        !host.contains('/'),
        !dirs.contains('?'),
    ensures
        last_component(scheme + "://"@ + host + seq!['/'] + dirs + seq!['/']) is None,
        stored_name(scheme + "://"@ + host + seq!['/'] + dirs + seq!['/']) == "firmware.bin"@,
{
    reveal_strlit("://");
    let tail = dirs + seq!['/'];
    let url = scheme + "://"@ + host + seq!['/'] + dirs + seq!['/'];
    assert(url =~= scheme + "://"@ + host + seq!['/'] + tail);
    let n = scheme.len() as int;
    assert(text::stands_at(url, "://"@, n)) by {
        assert(url.subrange(n, n + 3) =~= "://"@);
    }
    assert forall|j: int| 0 <= j < n implies !text::stands_at(url, "://"@, j) by {
        assert(scheme[j] != ':');
        assert(url[j] == scheme[j]);
        if text::stands_at(url, "://"@, j) {
            assert(url.subrange(j, j + 3)[0] == url[j]);
        }
    }
    text_laws::lemma_found(url, "://"@, n);
    let rest = host + seq!['/'] + tail;
    assert(after_scheme(url) =~= rest);
    text_laws::lemma_before_first(host, '/', tail);
    assert(after_first(rest, '/') =~= tail);
    assert(!tail.contains('?')) by {
        assert forall|i: int| 0 <= i < tail.len() implies tail[i] != '?' by {
            if i < dirs.len() {
                assert(tail[i] == dirs[i]);
            }
        }
    }
    text_laws::lemma_before_first(tail, '?', Seq::empty());
    let none = Seq::<char>::empty();
    text_laws::lemma_behind_last(dirs, '/', none);
    assert(dirs + seq!['/'] + none =~= tail);
}

} // verus!
