//! Case-insensitive search of entry names, with the full path of each hit.
use vstd::prelude::*;
use vstd::utf8::*;
use vstd::string::*;

use crate::index::{join_path, names_up, path_of, sep, Entries, Index, MAX_DEPTH};

verus! {

broadcast use vstd::std_specs::hash::group_hash_axioms;

/// `needle` stands in `hay` from byte `i` on.
pub open spec fn occurs_at(hay: Seq<u8>, needle: Seq<u8>, i: int) -> bool {
    0 <= i && i + needle.len() <= hay.len() && hay.subrange(i, i + needle.len()) == needle
}

/// The first place at or after `i` where `needle` stands in `hay`.
pub open spec fn first_from(hay: Seq<u8>, needle: Seq<u8>, i: int) -> Option<int>
    decreases hay.len() - i,
{
    if i < 0 || hay.len() < i + needle.len() {
        None
    } else if occurs_at(hay, needle, i) {
        Some(i)
    } else if i < hay.len() {
        first_from(hay, needle, i + 1)
    } else {
        None
    }
}

/// The first place where `needle` stands in `hay`.
pub open spec fn first_match(hay: Seq<u8>, needle: Seq<u8>) -> Option<int> {
    first_from(hay, needle, 0)
}

/// Relies on `memchr::memmem::find`: the index of the first occurrence of
/// `needle` in `haystack`, or `None` where it does not occur.
#[verifier::external_body]
fn find_bytes(haystack: &[u8], needle: &[u8]) -> (r: Option<usize>)
    ensures
        match first_match(haystack@, needle@) {
            Some(i) => r == Some(i as usize),
            None => r is None,
        },
{
    memchr::memmem::find(haystack, needle)
}

/// What lowercasing makes of a text.
pub uninterp spec fn lower_of(s: Seq<char>) -> Seq<char>;

/// Relies on `str::to_lowercase`: the result depends on the text alone.
#[verifier::external_body]
pub(crate) fn lowercase(s: &str) -> (r: String)
    ensures
        r@ == lower_of(s@),
{
    s.to_lowercase()
}

/// Whether the lowercased name contains the lowercased needle: the
/// case-insensitive test of a name.
pub fn contains_folded(folded_name: &str, folded_sub: &str) -> (r: bool)
    ensures
        r == first_match(encode_utf8(folded_name@), encode_utf8(folded_sub@)) is Some,
{
    let hay = folded_name.as_bytes();
    let needle = folded_sub.as_bytes();
    assert(hay@ == encode_utf8(folded_name@));
    assert(needle@ == encode_utf8(folded_sub@));
    find_bytes(hay, needle).is_some()
}

/// Bytes `i..j` of the name `b` are a whole run of its characters, and that
/// text lowercases to `target`.
pub open spec fn span_ok(b: Seq<u8>, target: Seq<char>, i: int, j: int) -> bool {
    &&& 0 <= i <= j <= b.len()
    &&& is_char_boundary(b, j)
    &&& is_char_boundary(b.subrange(0, j), i)
    &&& lower_of(decode_utf8(b.subrange(i, j))) == target
}

/// The first span of `b` that `span_ok` accepts, trying starts from `i` on
/// and, for each start, ends from `j` on (from the start itself for the
/// starts after `i`).
pub open spec fn first_span_from(b: Seq<u8>, target: Seq<char>, i: int, j: int) -> Option<
    (int, int),
>
    decreases b.len() + 1 - i, b.len() + 1 - j,
{
    if i < 0 || b.len() < i {
        None
    } else if j < i || b.len() < j {
        first_span_from(b, target, i + 1, i + 1)
    } else if span_ok(b, target, i, j) {
        Some((i, j))
    } else {
        first_span_from(b, target, i, j + 1)
    }
}

/// The first span of the name `b`, in its own case, whose text lowercases
/// to `target`.
pub open spec fn first_span(b: Seq<u8>, target: Seq<char>) -> Option<(int, int)> {
    first_span_from(b, target, 0, 0)
}

/// Whether bytes `i..j` of `name` are a span whose text lowercases to `folded_sub`.
fn span_at(name: &str, i: usize, j: usize, folded_sub: &String) -> (r: bool)
    ensures
        r == span_ok(encode_utf8(name@), folded_sub@, i as int, j as int),
{
    broadcast use vstd::utf8::encode_utf8_decode_utf8;

    let bytes = name.as_bytes();
    let ghost b = encode_utf8(name@);
    assert(bytes@ == b);
    if i <= j && j <= bytes.len() && name.is_char_boundary(j) {
        let (head, _) = name.split_at(j);
        if head.is_char_boundary(i) {
            let (_, piece) = head.split_at(i);
            assert(piece.spec_bytes() =~= b.subrange(i as int, j as int));
            assert(decode_utf8(encode_utf8(piece@)) == piece@);
            let folded = lowercase(piece);
            return folded.eq(folded_sub);
        }
    }
    false
}

/// The first span of `name`, in its own case and on its character
/// boundaries, whose text lowercases to `folded_sub`; `None` where there is
/// none.
pub fn original_span(name: &str, folded_sub: &String) -> (r: Option<(usize, usize)>)
    ensures
        match first_span(encode_utf8(name@), folded_sub@) {
            None => r is None,
            Some((a, b)) => r == Some((a as usize, b as usize)),
        },
{
    let n = name.as_bytes().len();
    let ghost b = encode_utf8(name@);
    let ghost t = folded_sub@;
    let mut i: usize = 0;
    loop
        invariant
            i <= n,
            n == b.len(),
            b == encode_utf8(name@),
            t == folded_sub@,
            first_span(b, t) == first_span_from(b, t, i as int, i as int),
        decreases n - i,
    {
        let mut j: usize = i;
        loop
            invariant
                i <= j <= n,
                n == b.len(),
                b == encode_utf8(name@),
                t == folded_sub@,
                first_span(b, t) == first_span_from(b, t, i as int, j as int),
            ensures
                first_span(b, t) == first_span_from(b, t, i as int, n as int),
                !span_ok(b, t, i as int, n as int),
            decreases n - j,
        {
            if span_at(name, i, j, folded_sub) {
                return Some((i, j));
            }
            if j == n {
                break ;
            }
            j = j + 1;
        }
        assert(first_span_from(b, t, i as int, n as int) == first_span_from(
            b,
            t,
            i as int,
            n + 1,
        ));
        assert(first_span_from(b, t, i as int, n + 1) == first_span_from(
            b,
            t,
            i + 1,
            i + 1,
        ));
        if i == n {
            assert(first_span_from(b, t, n + 1, n + 1) is None);
            return None;
        }
        i = i + 1;
    }
}

/// A hit: the entry, its full path, and the byte span of the matched text
/// inside the path.
#[derive(Debug, Clone)]
pub struct FullPath {
    pub frn: u64,
    pub inner: String,
    pub sub_start: usize,
    pub sub_end: usize,
}

/// The hit that entry `id` gives for `sub`, as path and span: `None` where
/// its lowercased name does not contain the lowercased `sub`, where no span
/// of the name in its own case lowercases to the lowercased `sub`, or where
/// it has no path. The span is that first span, in bytes of the path.
pub open spec fn hit_of(e: Entries, root: Seq<char>, id: u64, sub: Seq<char>) -> Option<
    (Seq<char>, int, int),
> {
    if !e.contains_key(id) {
        None
    } else {
        let name = e[id].1;
        if first_match(encode_utf8(lower_of(name)), encode_utf8(lower_of(sub))) is None {
            None
        } else {
            match first_span(encode_utf8(name), lower_of(sub)) {
                None => None,
                Some((a, b)) => match path_of(e, root, id) {
                    None => None,
                    Some(p) => {
                        let base = encode_utf8(p).len() - encode_utf8(name).len();
                        Some((p, base + a, base + b))
                    },
                },
            }
        }
    }
}

/// The bytes of `a + b` are those of `a`, then those of `b`.
pub proof fn lemma_encode_utf8_concat(a: Seq<char>, b: Seq<char>)
    ensures
        encode_utf8(a + b) == encode_utf8(a) + encode_utf8(b),
    decreases a.len(),
{
    if a.len() == 0 {
        assert(a + b =~= b);
        assert(encode_utf8(a) =~= Seq::<u8>::empty());
        assert(encode_utf8(a) + encode_utf8(b) =~= encode_utf8(b));
    } else {
        assert((a + b).drop_first() =~= a.drop_first() + b);
        assert((a + b)[0] == a[0]);
        lemma_encode_utf8_concat(a.drop_first(), b);
        assert(encode_utf8(a + b) =~= encode_utf8(a) + encode_utf8(b));
    }
}

impl FullPath {
    /// The path in three parts: before the matched text, the matched text,
    /// and after it. Where the span does not fall on character boundaries,
    /// the whole path comes first and the other parts are empty.
    pub fn split(&self) -> (r: (&str, &str, &str))
        ensures
            ({
                let b = encode_utf8(self.inner@);
                if self.sub_start <= self.sub_end <= (b.len() as usize) && is_char_boundary(
                    b,
                    self.sub_end as int,
                ) && is_char_boundary(b.subrange(0, self.sub_end as int), self.sub_start as int) {
                    &&& encode_utf8(r.0@) == b.subrange(0, self.sub_start as int)
                    &&& encode_utf8(r.1@) == b.subrange(self.sub_start as int, self.sub_end as int)
                    &&& encode_utf8(r.2@) == b.subrange(self.sub_end as int, b.len() as int)
                } else {
                    &&& r.0@ == self.inner@
                    &&& r.1@.len() == 0
                    &&& r.2@.len() == 0
                }
            }),
    {
        let s = self.inner.as_str();
        let ghost b = encode_utf8(self.inner@);
        if self.sub_start <= self.sub_end && self.sub_end <= s.len() {
            if s.is_char_boundary(self.sub_end) {
                let (head, tail) = s.split_at(self.sub_end);
                if head.is_char_boundary(self.sub_start) {
                    let (prefix, sub) = head.split_at(self.sub_start);
                    return (prefix, sub, tail);
                }
            }
        }
        proof {
            reveal_strlit("");
        }
        (s, "", "")
    }
}

/// A span that `first_span_from` gives lies within the name.
pub proof fn lemma_first_span_within(b: Seq<u8>, target: Seq<char>, i: int, j: int)
    ensures
        match first_span_from(b, target, i, j) {
            Some((a, c)) => 0 <= a <= c <= b.len(),
            None => true,
        },
    decreases b.len() + 1 - i, b.len() + 1 - j,
{
    if i < 0 || b.len() < i {
    } else if j < i || b.len() < j {
        lemma_first_span_within(b, target, i + 1, i + 1);
    } else if span_ok(b, target, i, j) {
    } else {
        lemma_first_span_within(b, target, i, j + 1);
    }
}

/// A path ends with the name of its entry, so it has at least the name's bytes.
pub proof fn lemma_path_ends_with_name(e: Entries, root: Seq<char>, id: u64)
    requires
        path_of(e, root, id) is Some,
    ensures
        e.contains_key(id),
        encode_utf8(e[id].1).len() <= encode_utf8(path_of(e, root, id)->0).len(),
{
    let names = names_up(e, id, MAX_DEPTH as nat)->0;
    assert(names[0] == e[id].1);
    let head = join_path(root, names.drop_first()) + sep();
    assert(path_of(e, root, id)->0 == head + e[id].1);
    lemma_encode_utf8_concat(head, e[id].1);
}

impl Index {
    /// The hit that entry `frn` gives for `sub`, given `sub` lowercased.
    pub(crate) fn hit(&self, frn: u64, sub: &str, folded_sub: &String) -> (r: Option<FullPath>)
        requires
            folded_sub@ == lower_of(sub@),
        ensures
            match hit_of(self.entries(), self.root(), frn, sub@) {
                None => r is None,
                Some((p, a, b)) => match r {
                    Some(m) => m.frn == frn && m.inner@ == p && m.sub_start == a && m.sub_end
                        == b,
                    None => false,
                },
            },
    {
        let entry = match self.get(frn) {
            Some(entry) => entry,
            None => return None,
        };
        let name = entry.1.as_str();
        let folded = lowercase(name);
        if !contains_folded(folded.as_str(), folded_sub.as_str()) {
            return None;
        }
        let name_len = name.as_bytes().len();
        match original_span(name, folded_sub) {
            None => None,
            Some((a, b)) => match self.path_of(frn) {
                None => None,
                Some(path) => {
                    let path_len = path.as_str().as_bytes().len();
                    proof {
                        lemma_path_ends_with_name(self.entries(), self.root(), frn);
                        lemma_first_span_within(encode_utf8(name@), folded_sub@, 0, 0);
                    }
                    let base = path_len - name_len;
                    Some(FullPath { frn, inner: path, sub_start: base + a, sub_end: base + b })
                },
            },
        }
    }

}

} // verus!
