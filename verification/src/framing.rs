//! The byte framing of requests and responses that the proxy hashes and
//! caches: `method \n url \n headers \n body` for requests, with the headers
//! grouped by name in byte order, and `status \n headers \n body` for
//! responses.
use vstd::prelude::*;
use crate::bytes::{append_bytes, ascii, ascii_bytes};
use crate::text::{decimal_string, decimal_text};
use crate::sec1::views;
use crate::forwarding::{ProxyError, all_values_readable, all_values_text};

verus! {

/// Line feed, tab and carriage return.
pub open spec fn lf() -> u8 { 0x0au8 }
pub open spec fn tab() -> u8 { 0x09u8 }
pub open spec fn cr() -> u8 { 0x0du8 }

/// Lexicographic order of byte strings (a proper prefix comes first).
pub open spec fn bytes_lt(a: Seq<u8>, b: Seq<u8>) -> bool
    decreases a.len(),
{
    if a.len() == 0 {
        b.len() > 0
    } else if b.len() == 0 {
        false
    } else if a[0] < b[0] {
        true
    } else if a[0] > b[0] {
        false
    } else {
        bytes_lt(a.drop_first(), b.drop_first())
    }
}

pub proof fn lemma_bytes_lt_irreflexive(a: Seq<u8>)
    ensures
        !bytes_lt(a, a),
    decreases a.len(),
{
    if a.len() > 0 {
        lemma_bytes_lt_irreflexive(a.drop_first());
    }
}

pub proof fn lemma_bytes_lt_asymmetric(a: Seq<u8>, b: Seq<u8>)
    ensures
        !(bytes_lt(a, b) && bytes_lt(b, a)),
    decreases a.len(),
{
    if a.len() > 0 && b.len() > 0 {
        lemma_bytes_lt_asymmetric(a.drop_first(), b.drop_first());
    }
}

pub proof fn lemma_bytes_lt_total(a: Seq<u8>, b: Seq<u8>)
    ensures
        a == b || bytes_lt(a, b) || bytes_lt(b, a),
    decreases a.len(),
{
    if a.len() > 0 && b.len() > 0 {
        lemma_bytes_lt_total(a.drop_first(), b.drop_first());
        if a[0] == b[0] && a.drop_first() == b.drop_first() {
            assert(a =~= seq![a[0]] + a.drop_first());
            assert(b =~= seq![b[0]] + b.drop_first());
        }
    } else if a.len() == 0 && b.len() == 0 {
        assert(a =~= b);
    }
}

pub proof fn lemma_bytes_lt_transitive(a: Seq<u8>, b: Seq<u8>, c: Seq<u8>)
    requires
        bytes_lt(a, b),
        bytes_lt(b, c),
    ensures
        bytes_lt(a, c),
    decreases a.len(),
{
    if a.len() > 0 && b.len() > 0 && c.len() > 0 && a[0] == b[0] && b[0] == c[0] {
        lemma_bytes_lt_transitive(a.drop_first(), b.drop_first(), c.drop_first());
    }
}

/// The outcome of comparing two byte strings.
#[derive(Clone, Copy, PartialEq, Eq, Structural, Debug)]
pub enum Comparison {
    Less,
    Equal,
    Greater,
}

/// Compares two byte strings lexicographically.
pub fn compare_bytes(a: &[u8], b: &[u8]) -> (res: Comparison)
    ensures
        (res == Comparison::Less) == bytes_lt(a@, b@),
        (res == Comparison::Equal) == (a@ == b@),
        (res == Comparison::Greater) == bytes_lt(b@, a@),
{
    proof {
        lemma_bytes_lt_total(a@, b@);
        lemma_bytes_lt_asymmetric(a@, b@);
        lemma_bytes_lt_irreflexive(a@);
    }
    let mut i: usize = 0;
    assert(a@.skip(0) =~= a@);
    assert(b@.skip(0) =~= b@);
    while i < a.len() && i < b.len()
        invariant
            i <= a@.len(),
            i <= b@.len(),
            a@.take(i as int) == b@.take(i as int),
            bytes_lt(a@, b@) == bytes_lt(a@.skip(i as int), b@.skip(i as int)),
            bytes_lt(b@, a@) == bytes_lt(b@.skip(i as int), a@.skip(i as int)),
        decreases a@.len() - i,
    {
        assert(a@.skip(i as int)[0] == a@[i as int]);
        assert(b@.skip(i as int)[0] == b@[i as int]);
        if a[i] < b[i] {
            return Comparison::Less;
        }
        if a[i] > b[i] {
            return Comparison::Greater;
        }
        assert(a@.skip(i as int).drop_first() =~= a@.skip(i + 1));
        assert(b@.skip(i as int).drop_first() =~= b@.skip(i + 1));
        assert(a@.take(i + 1) =~= a@.take(i as int).push(a@[i as int]));
        assert(b@.take(i + 1) =~= b@.take(i as int).push(b@[i as int]));
        i = i + 1;
    }
    if a.len() == b.len() {
        assert(a@ =~= a@.take(i as int));
        assert(b@ =~= b@.take(i as int));
        Comparison::Equal
    } else if a.len() < b.len() {
        assert(a@.skip(i as int).len() == 0);
        Comparison::Less
    } else {
        assert(b@.skip(i as int).len() == 0);
        Comparison::Greater
    }
}

/// A header as a (name, value) pair of byte strings.
pub open spec fn header_views(hs: Seq<(Vec<u8>, Vec<u8>)>) -> Seq<(Seq<u8>, Seq<u8>)> {
    hs.map_values(|h: (Vec<u8>, Vec<u8>)| (h.0@, h.1@))
}

/// The values of the headers named `name`, in order.
pub open spec fn values_of(hs: Seq<(Seq<u8>, Seq<u8>)>, name: Seq<u8>) -> Seq<Seq<u8>>
    decreases hs.len(),
{
    if hs.len() == 0 {
        Seq::empty()
    } else if hs.last().0 == name {
        values_of(hs.drop_last(), name).push(hs.last().1)
    } else {
        values_of(hs.drop_last(), name)
    }
}

/// Whether some header is named `name`.
pub open spec fn has_header(hs: Seq<(Seq<u8>, Seq<u8>)>, name: Seq<u8>) -> bool {
    exists|j: int| 0 <= j < hs.len() && #[trigger] hs[j].0 == name
}

/// `groups` lists each header name once, in byte order, with all of its
/// values in order.
pub open spec fn grouped_by_name(groups: Seq<(Seq<u8>, Seq<Seq<u8>>)>, hs: Seq<(Seq<u8>, Seq<u8>)>) -> bool {
    &&& forall|i: int, j: int| 0 <= i < j < groups.len() ==> bytes_lt(#[trigger] groups[i].0, #[trigger] groups[j].0)
    &&& forall|i: int| 0 <= i < groups.len() ==> (#[trigger] groups[i]).1 == values_of(hs, groups[i].0)
    &&& forall|n: Seq<u8>| has_header(hs, n) <==> exists|i: int| 0 <= i < groups.len() && #[trigger] groups[i].0 == n
}

/// Parts joined with a separator byte.
pub open spec fn join_with(parts: Seq<Seq<u8>>, sep: u8) -> Seq<u8>
    decreases parts.len(),
{
    if parts.len() == 0 {
        Seq::empty()
    } else if parts.len() == 1 {
        parts[0]
    } else {
        join_with(parts.drop_last(), sep) + seq![sep] + parts.last()
    }
}

/// One header name with its values: `name \t v1 \t v2 ...`.
pub open spec fn group_line(g: (Seq<u8>, Seq<Seq<u8>>)) -> Seq<u8> {
    g.0 + seq![tab()] + join_with(g.1, tab())
}

/// The header block of a request: its groups' lines separated by `\r`.
pub open spec fn request_header_block(groups: Seq<(Seq<u8>, Seq<Seq<u8>>)>) -> Seq<u8> {
    join_with(groups.map_values(|g: (Seq<u8>, Seq<Seq<u8>>)| group_line(g)), cr())
}

/// The framed request: `method \n url \n header block \n body`.
pub open spec fn request_frame(method: Seq<u8>, url: Seq<u8>, groups: Seq<(Seq<u8>, Seq<Seq<u8>>)>, body: Seq<u8>) -> Seq<u8> {
    method + seq![lf()] + url + seq![lf()] + request_header_block(groups) + seq![lf()] + body
}

spec fn group_views(gs: Seq<(Vec<u8>, Vec<Vec<u8>>)>) -> Seq<(Seq<u8>, Seq<Seq<u8>>)> {
    gs.map_values(|g: (Vec<u8>, Vec<Vec<u8>>)| (g.0@, g.1@.map_values(|v: Vec<u8>| v@)))
}

proof fn lemma_values_of_push(hs: Seq<(Seq<u8>, Seq<u8>)>, h: (Seq<u8>, Seq<u8>), name: Seq<u8>)
    ensures
        values_of(hs.push(h), name) == if h.0 == name { values_of(hs, name).push(h.1) } else { values_of(hs, name) },
{
    assert(hs.push(h).drop_last() =~= hs);
}

proof fn lemma_values_of_absent(hs: Seq<(Seq<u8>, Seq<u8>)>, name: Seq<u8>)
    requires
        !has_header(hs, name),
    ensures
        values_of(hs, name) == Seq::<Seq<u8>>::empty(),
    decreases hs.len(),
{
    if hs.len() > 0 {
        assert(!has_header(hs.drop_last(), name)) by {
            if has_header(hs.drop_last(), name) {
                let j = choose|j: int| 0 <= j < hs.drop_last().len() && #[trigger] hs.drop_last()[j].0 == name;
                assert(hs[j].0 == name);
            }
        }
        assert(hs[hs.len() - 1].0 != name);
        lemma_values_of_absent(hs.drop_last(), name);
    }
}

/// Some group carries the name `n`.
pub open spec fn has_group(g: Seq<(Seq<u8>, Seq<Seq<u8>>)>, n: Seq<u8>) -> bool {
    exists|i: int| 0 <= i < g.len() && #[trigger] g[i].0 == n
}

/// The group names are strictly increasing in byte order.
pub open spec fn names_sorted(g: Seq<(Seq<u8>, Seq<Seq<u8>>)>) -> bool {
    forall|i: int, j: int| 0 <= i < j < g.len() ==> bytes_lt(#[trigger] g[i].0, #[trigger] g[j].0)
}

proof fn lemma_has_header_iff_values(hs: Seq<(Seq<u8>, Seq<u8>)>, n: Seq<u8>)
    ensures
        has_header(hs, n) == (values_of(hs, n).len() > 0),
    decreases hs.len(),
{
    if hs.len() > 0 {
        let init = hs.drop_last();
        lemma_has_header_iff_values(init, n);
        if has_header(init, n) {
            let j = choose|j: int| 0 <= j < init.len() && #[trigger] init[j].0 == n;
            assert(hs[j].0 == n);
        }
        if has_header(hs, n) && hs.last().0 != n {
            let j = choose|j: int| 0 <= j < hs.len() && #[trigger] hs[j].0 == n;
            assert(init[j].0 == n);
        }
        if hs.last().0 == n {
            assert(hs[hs.len() - 1].0 == n);
        }
    }
}

proof fn lemma_sorted_groups_same_names(a: Seq<(Seq<u8>, Seq<Seq<u8>>)>, b: Seq<(Seq<u8>, Seq<Seq<u8>>)>)
    requires
        names_sorted(a),
        names_sorted(b),
        forall|n: Seq<u8>| has_group(a, n) <==> has_group(b, n),
    ensures
        a.len() == b.len(),
        forall|i: int| 0 <= i < a.len() ==> a[i].0 == b[i].0,
    decreases a.len(),
{
    if a.len() == 0 {
        if b.len() > 0 {
            assert(has_group(b, b[0].0));
        }
    } else if b.len() == 0 {
        assert(has_group(a, a[0].0));
    } else {
        let a0 = a[0].0;
        let b0 = b[0].0;
        assert(has_group(a, a0));
        assert(has_group(b, b0));
        let j = choose|j: int| 0 <= j < b.len() && #[trigger] b[j].0 == a0;
        let i = choose|i: int| 0 <= i < a.len() && #[trigger] a[i].0 == b0;
        if j > 0 {
            assert(bytes_lt(b[0].0, b[j].0));
            if i > 0 {
                assert(bytes_lt(a[0].0, a[i].0));
                lemma_bytes_lt_asymmetric(a0, b0);
            } else {
                lemma_bytes_lt_irreflexive(b0);
            }
        }
        assert(a0 == b0);
        let a2 = a.drop_first();
        let b2 = b.drop_first();
        assert(names_sorted(a2)) by {
            assert forall|p: int, q: int| 0 <= p < q < a2.len() implies bytes_lt(#[trigger] a2[p].0, #[trigger] a2[q].0) by {
                assert(a2[p] == a[p + 1] && a2[q] == a[q + 1]);
            }
        }
        assert(names_sorted(b2)) by {
            assert forall|p: int, q: int| 0 <= p < q < b2.len() implies bytes_lt(#[trigger] b2[p].0, #[trigger] b2[q].0) by {
                assert(b2[p] == b[p + 1] && b2[q] == b[q + 1]);
            }
        }
        assert forall|n: Seq<u8>| has_group(a2, n) <==> has_group(b2, n) by {
            if has_group(a2, n) {
                let k = choose|k: int| 0 <= k < a2.len() && #[trigger] a2[k].0 == n;
                assert(a[k + 1].0 == n);
                assert(bytes_lt(a[0].0, a[k + 1].0));
                lemma_bytes_lt_irreflexive(n);
                assert(has_group(a, n));
                let m = choose|m: int| 0 <= m < b.len() && #[trigger] b[m].0 == n;
                assert(m != 0);
                assert(b2[m - 1].0 == n);
            }
            if has_group(b2, n) {
                let k = choose|k: int| 0 <= k < b2.len() && #[trigger] b2[k].0 == n;
                assert(b[k + 1].0 == n);
                assert(bytes_lt(b[0].0, b[k + 1].0));
                lemma_bytes_lt_irreflexive(n);
                assert(has_group(b, n));
                let m = choose|m: int| 0 <= m < a.len() && #[trigger] a[m].0 == n;
                assert(m != 0);
                assert(a2[m - 1].0 == n);
            }
        }
        lemma_sorted_groups_same_names(a2, b2);
        assert forall|k: int| 0 <= k < a.len() implies a[k].0 == b[k].0 by {
            if k > 0 {
                assert(a2[k - 1] == a[k] && b2[k - 1] == b[k]);
            }
        }
    }
}

/// The grouping of a header list is determined by the values each name
/// carries: two lists with the same values, in the same order, under every
/// name have the same grouping.
pub proof fn lemma_grouping_unique(
    g1: Seq<(Seq<u8>, Seq<Seq<u8>>)>,
    g2: Seq<(Seq<u8>, Seq<Seq<u8>>)>,
    hs1: Seq<(Seq<u8>, Seq<u8>)>,
    hs2: Seq<(Seq<u8>, Seq<u8>)>,
)
    requires
        grouped_by_name(g1, hs1),
        grouped_by_name(g2, hs2),
        forall|n: Seq<u8>| values_of(hs1, n) == values_of(hs2, n),
    ensures
        g1 == g2,
{
    assert forall|n: Seq<u8>| has_group(g1, n) <==> has_group(g2, n) by {
        lemma_has_header_iff_values(hs1, n);
        lemma_has_header_iff_values(hs2, n);
        assert(has_header(hs1, n) <==> has_header(hs2, n));
        if has_group(g1, n) {
            let i = choose|i: int| 0 <= i < g1.len() && #[trigger] g1[i].0 == n;
            assert(has_header(hs1, n));
        }
        if has_group(g2, n) {
            let i = choose|i: int| 0 <= i < g2.len() && #[trigger] g2[i].0 == n;
            assert(has_header(hs2, n));
        }
    }
    lemma_sorted_groups_same_names(g1, g2);
    assert forall|i: int| 0 <= i < g1.len() implies g1[i] == g2[i] by {
        assert(g1[i].1 == values_of(hs1, g1[i].0));
        assert(g2[i].1 == values_of(hs2, g2[i].0));
    }
    assert(g1 =~= g2);
}

/// Framing a request does not depend on how headers of different names are
/// interleaved: header lists with the same values, in the same order, under
/// every name frame to the same bytes.
pub proof fn lemma_request_frame_ignores_interleaving(
    method: Seq<u8>,
    url: Seq<u8>,
    body: Seq<u8>,
    hs1: Seq<(Seq<u8>, Seq<u8>)>,
    hs2: Seq<(Seq<u8>, Seq<u8>)>,
    g1: Seq<(Seq<u8>, Seq<Seq<u8>>)>,
    g2: Seq<(Seq<u8>, Seq<Seq<u8>>)>,
)
    requires
        grouped_by_name(g1, hs1),
        grouped_by_name(g2, hs2),
        forall|n: Seq<u8>| values_of(hs1, n) == values_of(hs2, n),
    ensures
        request_frame(method, url, g1, body) == request_frame(method, url, g2, body),
{
    lemma_grouping_unique(g1, g2, hs1, hs2);
}

/// Groups the headers by name, names in byte order, values in order.
fn group_headers(headers: &Vec<(Vec<u8>, Vec<u8>)>) -> (res: Vec<(Vec<u8>, Vec<Vec<u8>>)>)
    ensures
        grouped_by_name(group_views(res@), header_views(headers@)),
{
    let ghost hs = header_views(headers@);
    let mut groups: Vec<(Vec<u8>, Vec<Vec<u8>>)> = Vec::new();
    let mut i: usize = 0;
    proof {
        assert(hs.take(0) =~= Seq::<(Seq<u8>, Seq<u8>)>::empty());
        assert(group_views(groups@) =~= Seq::empty());
    }
    while i < headers.len()
        invariant
            hs == header_views(headers@),
            i <= headers@.len(),
            grouped_by_name(group_views(groups@), hs.take(i as int)),
        decreases headers@.len() - i,
    {
        let ghost prev = hs.take(i as int);
        let ghost gv = group_views(groups@);
        let name = crate::bytes::copy_range(headers[i].0.as_slice(), 0, headers[i].0.len());
        let value = crate::bytes::copy_range(headers[i].1.as_slice(), 0, headers[i].1.len());
        let ghost h = (name@, value@);
        proof {
            assert(name@ =~= headers@[i as int].0@);
            assert(value@ =~= headers@[i as int].1@);
            assert(hs[i as int] == h);
            assert(hs.take(i + 1) =~= prev.push(h));
        }
        // Find the first group whose name is not below `name`.
        let mut p: usize = 0;
        let mut found_equal = false;
        while p < groups.len()
            invariant_except_break
                forall|k: int| 0 <= k < p ==> bytes_lt(#[trigger] gv[k].0, name@),
                !found_equal,
            invariant
                gv == group_views(groups@),
                p <= groups@.len(),
            ensures
                p <= groups@.len(),
                forall|k: int| 0 <= k < p ==> bytes_lt(#[trigger] gv[k].0, name@),
                found_equal ==> p < groups@.len() && gv[p as int].0 == name@,
                !found_equal && p < groups@.len() ==> bytes_lt(name@, gv[p as int].0),
            decreases groups@.len() - p,
        {
            let c = compare_bytes(groups[p].0.as_slice(), name.as_slice());
            if c == Comparison::Less {
                p = p + 1;
            } else {
                if c == Comparison::Equal {
                    found_equal = true;
                }
                break;
            }
        }
        // state after the search: groups before p are below name
        let ghost after = hs.take(i + 1);
        if found_equal {
            let mut g = groups.remove(p);
            let ghost old_values = g.1@.map_values(|v: Vec<u8>| v@);
            g.1.push(value);
            groups.insert(p, g);
            proof {
                let nv = group_views(groups@);
                assert(nv.len() == gv.len());
                assert forall|k: int| 0 <= k < nv.len() && k != p implies #[trigger] nv[k] == gv[k] by {}
                assert(nv[p as int].0 == name@);
                assert(nv[p as int].1 =~= old_values.push(value@));
                assert forall|k: int| 0 <= k < nv.len() implies (#[trigger] nv[k]).1 == values_of(after, nv[k].0) by {
                    lemma_values_of_push(prev, h, nv[k].0);
                    if k != p {
                        assert(gv[k].0 != name@) by {
                            if gv[k].0 == name@ {
                                lemma_bytes_lt_irreflexive(name@);
                            }
                        }
                    }
                }
                assert forall|n: Seq<u8>| has_header(after, n) <==> exists|k: int| 0 <= k < nv.len() && #[trigger] nv[k].0 == n by {
                    if has_header(after, n) {
                        let j = choose|j: int| 0 <= j < after.len() && #[trigger] after[j].0 == n;
                        if j < prev.len() {
                            assert(prev[j].0 == n);
                            assert(has_header(prev, n));
                            let k = choose|k: int| 0 <= k < gv.len() && #[trigger] gv[k].0 == n;
                            assert(nv[k].0 == n);
                        } else {
                            assert(nv[p as int].0 == n);
                        }
                    }
                    if exists|k: int| 0 <= k < nv.len() && #[trigger] nv[k].0 == n {
                        let k = choose|k: int| 0 <= k < nv.len() && #[trigger] nv[k].0 == n;
                        assert(gv[k].0 == n);
                        assert(has_header(prev, n));
                        let j = choose|j: int| 0 <= j < prev.len() && #[trigger] prev[j].0 == n;
                        assert(after[j].0 == n);
                    }
                }
            }
        } else {
            let mut vs: Vec<Vec<u8>> = Vec::new();
            vs.push(value);
            groups.insert(p, (name, vs));
            proof {
                let nv = group_views(groups@);
                assert(nv.len() == gv.len() + 1);
                assert forall|k: int| 0 <= k < p implies #[trigger] nv[k] == gv[k] by {}
                assert forall|k: int| p < k < nv.len() implies #[trigger] nv[k] == gv[k - 1] by {}
                assert(nv[p as int].0 == name@);
                assert(nv[p as int].1 =~= seq![value@]);
                // Groups from p on (in the old list) are above name.
                assert forall|k: int| p <= k < gv.len() implies bytes_lt(name@, #[trigger] gv[k].0) by {
                    if k > p {
                        assert(bytes_lt(gv[p as int].0, gv[k].0));
                        lemma_bytes_lt_transitive(name@, gv[p as int].0, gv[k].0);
                    }
                }
                assert(!has_header(prev, name@)) by {
                    if has_header(prev, name@) {
                        let k = choose|k: int| 0 <= k < gv.len() && #[trigger] gv[k].0 == name@;
                        if k < p {
                            lemma_bytes_lt_irreflexive(name@);
                        } else {
                            lemma_bytes_lt_irreflexive(name@);
                        }
                    }
                }
                lemma_values_of_absent(prev, name@);
                lemma_values_of_push(prev, h, name@);
                assert forall|a: int, b: int| 0 <= a < b < nv.len() implies bytes_lt(#[trigger] nv[a].0, #[trigger] nv[b].0) by {
                    if b < p {
                    } else if b == p {
                    } else if a < p {
                        lemma_bytes_lt_transitive(nv[a].0, name@, nv[b].0);
                    } else if a == p {
                    } else {
                    }
                }
                assert forall|k: int| 0 <= k < nv.len() implies (#[trigger] nv[k]).1 == values_of(after, nv[k].0) by {
                    lemma_values_of_push(prev, h, nv[k].0);
                    if k < p {
                        assert(gv[k].0 != name@) by { lemma_bytes_lt_irreflexive(name@); }
                    } else if k > p {
                        assert(gv[k - 1].0 != name@) by { lemma_bytes_lt_irreflexive(name@); }
                    }
                }
                assert forall|n: Seq<u8>| has_header(after, n) <==> exists|k: int| 0 <= k < nv.len() && #[trigger] nv[k].0 == n by {
                    if has_header(after, n) {
                        let j = choose|j: int| 0 <= j < after.len() && #[trigger] after[j].0 == n;
                        if j < prev.len() {
                            assert(prev[j].0 == n);
                            assert(has_header(prev, n));
                            let k = choose|k: int| 0 <= k < gv.len() && #[trigger] gv[k].0 == n;
                            if k < p {
                                assert(nv[k].0 == n);
                            } else {
                                assert(nv[k + 1].0 == n);
                            }
                        } else {
                            assert(nv[p as int].0 == n);
                        }
                    }
                    if exists|k: int| 0 <= k < nv.len() && #[trigger] nv[k].0 == n {
                        let k = choose|k: int| 0 <= k < nv.len() && #[trigger] nv[k].0 == n;
                        if k == p {
                            assert(after[i as int].0 == n);
                        } else {
                            let ok = if k < p { k } else { k - 1 };
                            assert(gv[ok].0 == n);
                            assert(has_header(prev, n));
                            let j = choose|j: int| 0 <= j < prev.len() && #[trigger] prev[j].0 == n;
                            assert(after[j].0 == n);
                        }
                    }
                }
            }
        }
        i = i + 1;
    }
    assert(hs.take(headers@.len() as int) =~= hs);
    groups
}

proof fn lemma_join_step(parts: Seq<Seq<u8>>, sep: u8, k: int)
    requires
        0 <= k < parts.len(),
    ensures
        join_with(parts.take(k + 1), sep) == if k == 0 {
            parts[0]
        } else {
            join_with(parts.take(k), sep) + seq![sep] + parts[k]
        },
{
    assert(parts.take(k + 1).drop_last() =~= parts.take(k));
    if k == 0 {
        assert(parts.take(1)[0] == parts[0]);
    }
}

/// Appends `parts` joined with `sep` to `out`.
fn append_joined(out: &mut Vec<u8>, parts: &Vec<Vec<u8>>, sep: u8)
    ensures
        final(out)@ == old(out)@ + join_with(parts@.map_values(|v: Vec<u8>| v@), sep),
{
    let ghost ps = parts@.map_values(|v: Vec<u8>| v@);
    let ghost start = out@;
    let mut k: usize = 0;
    assert(ps.take(0) =~= Seq::<Seq<u8>>::empty());
    assert(out@ =~= start + join_with(ps.take(0), sep));
    while k < parts.len()
        invariant
            ps == parts@.map_values(|v: Vec<u8>| v@),
            k <= parts@.len(),
            out@ == start + join_with(ps.take(k as int), sep),
        decreases parts@.len() - k,
    {
        proof { lemma_join_step(ps, sep, k as int); }
        if k > 0 {
            out.push(sep);
        }
        append_bytes(out, parts[k].as_slice());
        assert(out@ =~= start + join_with(ps.take(k + 1), sep));
        k = k + 1;
    }
    assert(ps.take(parts@.len() as int) =~= ps);
}

/// Frames a request for hashing: `method \n url \n headers \n body`, where
/// the headers are grouped by name in byte order, each group written as the
/// name and its values in order separated by tabs, groups separated by `\r`.
/// Every header value is read as text first: a value that is not visible
/// ASCII refuses the request.
pub fn serialize_http_request(method: &[u8], url: &[u8], headers: &Vec<(Vec<u8>, Vec<u8>)>, body: &[u8]) -> (res: Result<Vec<u8>, ProxyError>)
    ensures
        all_values_text(header_views(headers@)) ==> (res matches Ok(v) && exists|groups: Seq<(Seq<u8>, Seq<Seq<u8>>)>| {
            &&& grouped_by_name(groups, header_views(headers@))
            &&& v@ == request_frame(method@, url@, groups, body@)
        }),
        !all_values_text(header_views(headers@)) ==> res == Err::<Vec<u8>, ProxyError>(ProxyError::UnreadableHeader),
{
    if all_values_readable(headers) {
        Ok(frame_request(method, url, headers, body))
    } else {
        Err(ProxyError::UnreadableHeader)
    }
}

/// The framing of a request whose header values all read as text.
fn frame_request(method: &[u8], url: &[u8], headers: &Vec<(Vec<u8>, Vec<u8>)>, body: &[u8]) -> (res: Vec<u8>)
    ensures
        exists|groups: Seq<(Seq<u8>, Seq<Seq<u8>>)>| {
            &&& grouped_by_name(groups, header_views(headers@))
            &&& res@ == request_frame(method@, url@, groups, body@)
        },
{
    let groups = group_headers(headers);
    let ghost gv = group_views(groups@);
    let ghost lines = gv.map_values(|g: (Seq<u8>, Seq<Seq<u8>>)| group_line(g));
    let mut out: Vec<u8> = Vec::new();
    append_bytes(&mut out, method);
    out.push(0x0a);
    append_bytes(&mut out, url);
    out.push(0x0a);
    let ghost start = out@;
    let mut k: usize = 0;
    assert(lines.take(0) =~= Seq::<Seq<u8>>::empty());
    assert(out@ =~= start + join_with(lines.take(0), cr()));
    while k < groups.len()
        invariant
            gv == group_views(groups@),
            lines == gv.map_values(|g: (Seq<u8>, Seq<Seq<u8>>)| group_line(g)),
            k <= groups@.len(),
            out@ == start + join_with(lines.take(k as int), cr()),
        decreases groups@.len() - k,
    {
        proof { lemma_join_step(lines, cr(), k as int); }
        let ghost before = out@;
        if k > 0 {
            out.push(0x0d);
        }
        let ghost mid = out@;
        append_bytes(&mut out, groups[k].0.as_slice());
        out.push(0x09);
        append_joined(&mut out, &groups[k].1, 0x09);
        proof {
            assert(lines[k as int] == group_line(gv[k as int]));
            assert(out@ =~= mid + group_line(gv[k as int]));
        }
        assert(out@ =~= start + join_with(lines.take(k + 1), cr()));
        k = k + 1;
    }
    assert(lines.take(groups@.len() as int) =~= lines);
    out.push(0x0a);
    append_bytes(&mut out, body);
    assert(out@ =~= request_frame(method@, url@, gv, body@));
    out
}

/// One response header line: `name \t value`.
pub open spec fn header_line(h: (Seq<u8>, Seq<u8>)) -> Seq<u8> {
    h.0 + seq![tab()] + h.1
}

/// The framed response: `status \n headers \n body`, the status in decimal
/// and the header lines (in order) separated by `\r`.
pub open spec fn response_frame(status: u16, hs: Seq<(Seq<u8>, Seq<u8>)>, body: Seq<u8>) -> Seq<u8> {
    ascii(decimal_text(status as nat)) + seq![lf()] + join_with(hs.map_values(|h: (Seq<u8>, Seq<u8>)| header_line(h)), cr())
        + seq![lf()] + body
}

/// Frames a response for the cache; also hands back the body.
pub fn serialize_http_response(status: u16, headers: &Vec<(Vec<u8>, Vec<u8>)>, body: &[u8]) -> (res: (Vec<u8>, Vec<u8>))
    ensures
        res.0@ == response_frame(status, header_views(headers@), body@),
        res.1@ == body@,
{
    let ghost hs = header_views(headers@);
    let ghost lines = hs.map_values(|h: (Seq<u8>, Seq<u8>)| header_line(h));
    let digits = decimal_string(status as u64);
    let mut out = ascii_bytes(digits.as_str());
    out.push(0x0a);
    let ghost start = out@;
    let mut k: usize = 0;
    assert(lines.take(0) =~= Seq::<Seq<u8>>::empty());
    assert(out@ =~= start + join_with(lines.take(0), cr()));
    while k < headers.len()
        invariant
            hs == header_views(headers@),
            lines == hs.map_values(|h: (Seq<u8>, Seq<u8>)| header_line(h)),
            k <= headers@.len(),
            out@ == start + join_with(lines.take(k as int), cr()),
        decreases headers@.len() - k,
    {
        proof { lemma_join_step(lines, cr(), k as int); }
        if k > 0 {
            out.push(0x0d);
        }
        let ghost mid = out@;
        append_bytes(&mut out, headers[k].0.as_slice());
        out.push(0x09);
        append_bytes(&mut out, headers[k].1.as_slice());
        proof {
            assert(lines[k as int] == header_line(hs[k as int]));
            assert(out@ =~= mid + header_line(hs[k as int]));
        }
        assert(out@ =~= start + join_with(lines.take(k + 1), cr()));
        k = k + 1;
    }
    assert(lines.take(headers@.len() as int) =~= lines);
    out.push(0x0a);
    append_bytes(&mut out, body);
    let body_copy = crate::bytes::copy_range(body, 0, body.len());
    assert(body@.subrange(0, body@.len() as int) =~= body@);
    (out, body_copy)
}

/// The position of the first `b` in `s`, if any.
pub open spec fn first_index(s: Seq<u8>, b: u8) -> Option<nat>
    decreases s.len(),
{
    if s.len() == 0 {
        None
    } else if s[0] == b {
        Some(0)
    } else {
        match first_index(s.drop_first(), b) {
            Some(i) => Some(i + 1),
            None => None,
        }
    }
}

/// `s` cut at every `b` (always at least one piece).
pub open spec fn split_on(s: Seq<u8>, b: u8) -> Seq<Seq<u8>>
    decreases s.len(),
{
    if s.len() == 0 {
        seq![Seq::empty()]
    } else if s.last() == b {
        split_on(s.drop_last(), b).push(Seq::empty())
    } else {
        let p = split_on(s.drop_last(), b);
        p.update(p.len() - 1, p.last().push(s.last()))
    }
}

/// The decimal digit a byte stands for, if any.
pub open spec fn decimal_digit(c: u8) -> Option<nat> {
    if 0x30u8 <= c && c <= 0x39u8 { Some((c - 0x30u8) as nat) } else { None }
}

/// The value of a string of decimal digit bytes.
pub open spec fn decimal_bytes_value(ds: Seq<u8>) -> nat
    decreases ds.len(),
{
    if ds.len() == 0 {
        0
    } else {
        decimal_bytes_value(ds.drop_last()) * 10 + decimal_digit(ds.last()).unwrap()
    }
}

/// The digits of a status line: an optional leading `+` is dropped.
pub open spec fn status_digits(bs: Seq<u8>) -> Seq<u8> {
    if bs.len() > 0 && bs[0] == 0x2bu8 { bs.drop_first() } else { bs }
}

/// Every byte is a decimal digit.
pub open spec fn all_digits(ds: Seq<u8>) -> bool {
    forall|i: int| 0 <= i < ds.len() ==> #[trigger] decimal_digit(ds[i]) is Some
}

/// What `str::parse::<u16>` accepts: an optional `+`, then one or more
/// decimal digits whose value fits in 16 bits.
pub open spec fn decimal_u16(bs: Seq<u8>) -> Option<u16> {
    let ds = status_digits(bs);
    if ds.len() == 0 || !all_digits(ds) || decimal_bytes_value(ds) > 65535 {
        None
    } else {
        Some(decimal_bytes_value(ds) as u16)
    }
}

/// Why a cached response could not be read back.
#[derive(Clone, Copy, PartialEq, Eq, Structural, Debug)]
pub enum FrameError {
    /// A part of the frame is missing.
    Corrupted,
    /// The status line is not a number between 100 and 999.
    BadStatus,
}

/// The text a frame error is reported with.
pub open spec fn frame_error_message(e: FrameError) -> Seq<char> {
    match e {
        FrameError::Corrupted => "corrupted cache entry"@,
        FrameError::BadStatus => "invalid status code in cache entry"@,
    }
}

impl FrameError {
    /// The error's text.
    pub fn message(&self) -> (res: String)
        ensures
            res@ == frame_error_message(*self),
    {
        match self {
            FrameError::Corrupted => "corrupted cache entry".to_owned(),
            FrameError::BadStatus => "invalid status code in cache entry".to_owned(),
        }
    }
}

/// A header line split at its first tab into name and value.
pub open spec fn header_of_line(line: Seq<u8>) -> Option<(Seq<u8>, Seq<u8>)> {
    match first_index(line, tab()) {
        Some(t) => Some((line.take(t as int), line.skip((t + 1) as int))),
        None => None,
    }
}

/// All header lines split into name and value (`None` if one has no tab).
pub open spec fn headers_of_lines(lines: Seq<Seq<u8>>) -> Option<Seq<(Seq<u8>, Seq<u8>)>>
    decreases lines.len(),
{
    if lines.len() == 0 {
        Some(Seq::empty())
    } else {
        match (headers_of_lines(lines.drop_last()), header_of_line(lines.last())) {
            (Some(hs), Some(h)) => Some(hs.push(h)),
            _ => None,
        }
    }
}

/// The positions of the first two line feeds of a frame, if it has two.
pub open spec fn frame_cut(data: Seq<u8>) -> Option<(nat, nat)> {
    match first_index(data, lf()) {
        None => None,
        Some(i) => match first_index(data.skip((i + 1) as int), lf()) {
            None => None,
            Some(j) => Some((i, i + 1 + j)),
        },
    }
}

/// Reading a framed response back: status line, header block (lines split
/// at `\r`, each at its first tab) and body (everything after the second
/// line feed).
pub open spec fn response_decoding(data: Seq<u8>) -> Result<(u16, Seq<(Seq<u8>, Seq<u8>)>, Seq<u8>), FrameError> {
    match frame_cut(data) {
        None => Err(FrameError::Corrupted),
        Some((i, j)) => match decimal_u16(data.take(i as int)) {
            None => Err(FrameError::BadStatus),
            Some(code) => if code < 100 || code >= 1000 {
                Err(FrameError::BadStatus)
            } else {
                match headers_of_lines(split_on(data.subrange((i + 1) as int, j as int), cr())) {
                    None => Err(FrameError::Corrupted),
                    Some(hs) => Ok((code, hs, data.skip((j + 1) as int))),
                }
            },
        },
    }
}

/// Finds the first `b` in `s[from..]`.
fn find_byte(s: &[u8], from: usize, b: u8) -> (res: Option<usize>)
    requires
        from <= s@.len(),
    ensures
        match res {
            Some(r) => from <= r < s.len() && s@[r as int] == b
                && first_index(s@.skip(from as int), b) == Some((r - from) as nat),
            None => first_index(s@.skip(from as int), b) is None,
        },
{
    let mut i: usize = from;
    while i < s.len()
        invariant
            from <= i <= s@.len(),
            forall|k: int| from <= k < i ==> s@[k] != b,
        decreases s@.len() - i,
    {
        if s[i] == b {
            proof { lemma_first_index_at(s@.skip(from as int), b, i - from); }
            return Some(i);
        }
        i = i + 1;
    }
    proof { lemma_first_index_none(s@.skip(from as int), b); }
    None
}

proof fn lemma_first_index_at(s: Seq<u8>, b: u8, k: int)
    requires
        0 <= k < s.len(),
        s[k] == b,
        forall|j: int| 0 <= j < k ==> s[j] != b,
    ensures
        first_index(s, b) == Some(k as nat),
    decreases k,
{
    if k > 0 {
        lemma_first_index_at(s.drop_first(), b, k - 1);
    }
}

proof fn lemma_first_index_none(s: Seq<u8>, b: u8)
    requires
        forall|j: int| 0 <= j < s.len() ==> s[j] != b,
    ensures
        first_index(s, b) is None,
    decreases s.len(),
{
    if s.len() > 0 {
        lemma_first_index_none(s.drop_first(), b);
    }
}

/// Reads a status line as `str::parse::<u16>` does.
fn parse_u16_decimal(bs: &[u8]) -> (res: Option<u16>)
    ensures
        res == decimal_u16(bs@),
{
    let start: usize = if bs.len() > 0 && bs[0] == 0x2b { 1 } else { 0 };
    let ghost ds = status_digits(bs@);
    assert(ds =~= bs@.skip(start as int));
    if start == bs.len() {
        return None;
    }
    let mut i: usize = start;
    let mut value: u32 = 0;
    while i < bs.len()
        invariant
            ds == bs@.skip(start as int),
            ds == status_digits(bs@),
            ds.len() > 0,
            start <= i <= bs@.len(),
            forall|k: int| 0 <= k < i - start ==> #[trigger] decimal_digit(ds[k]) is Some,
            value == decimal_bytes_value(ds.take(i - start)),
            value <= 65535,
        decreases bs@.len() - i,
    {
        let c = bs[i];
        let ghost k: int = i - start;
        assert(ds[k] == c);
        if c < 0x30 || c > 0x39 {
            assert(decimal_digit(ds[k]) is None);
            assert(!all_digits(ds));
            return None;
        }
        proof {
            assert(ds.take(k + 1).drop_last() =~= ds.take(k));
            assert(ds.take(k + 1).last() == c);
        }
        let next = value * 10 + (c - 0x30) as u32;
        if next > 65535 {
            proof { lemma_decimal_prefix_bound(ds, k + 1); }
            return None;
        }
        value = next;
        i = i + 1;
    }
    assert(ds.take(bs@.len() - start) =~= ds);
    assert(all_digits(ds));
    Some(value as u16)
}

proof fn lemma_decimal_prefix_bound(ds: Seq<u8>, i: int)
    requires
        0 <= i <= ds.len(),
    ensures
        decimal_bytes_value(ds.take(i)) <= decimal_bytes_value(ds),
    decreases ds.len() - i,
{
    if i < ds.len() {
        lemma_decimal_prefix_bound(ds, i + 1);
        assert(ds.take(i + 1).drop_last() =~= ds.take(i));
    } else {
        assert(ds.take(i) =~= ds);
    }
}

/// The parts of a cached response: status code, headers in order, body.
pub struct ResponseParts {
    pub status: u16,
    pub headers: Vec<(Vec<u8>, Vec<u8>)>,
    pub body: Vec<u8>,
}

proof fn lemma_split_on_step(s: Seq<u8>, b: u8, k: int)
    requires
        0 <= k < s.len(),
    ensures
        split_on(s.take(k + 1), b) == if s[k] == b {
            split_on(s.take(k), b).push(Seq::empty())
        } else {
            split_on(s.take(k), b).update(split_on(s.take(k), b).len() - 1, split_on(s.take(k), b).last().push(s[k]))
        },
{
    assert(s.take(k + 1).drop_last() =~= s.take(k));
}

proof fn lemma_split_on_nonempty(s: Seq<u8>, b: u8)
    ensures
        split_on(s, b).len() >= 1,
    decreases s.len(),
{
    if s.len() > 0 {
        lemma_split_on_nonempty(s.drop_last(), b);
    }
}

/// Cuts `s` at every `b`.
fn split_bytes(s: &[u8], b: u8) -> (res: Vec<Vec<u8>>)
    ensures
        views(res@) == split_on(s@, b),
{
    let mut pieces: Vec<Vec<u8>> = Vec::new();
    let mut current: Vec<u8> = Vec::new();
    let mut k: usize = 0;
    assert(s@.take(0) =~= Seq::<u8>::empty());
    assert(views(pieces@).push(current@) =~= seq![Seq::<u8>::empty()]);
    while k < s.len()
        invariant
            k <= s@.len(),
            views(pieces@).push(current@) == split_on(s@.take(k as int), b),
        decreases s@.len() - k,
    {
        proof { lemma_split_on_step(s@, b, k as int); }
        let ghost before = views(pieces@).push(current@);
        if s[k] == b {
            let done = current;
            pieces.push(done);
            current = Vec::new();
            assert(views(pieces@).push(current@) =~= before.push(Seq::empty()));
        } else {
            current.push(s[k]);
            assert(views(pieces@).push(current@) =~= before.update(before.len() - 1, before.last().push(s@[k as int])));
        }
        k = k + 1;
    }
    assert(s@.take(s@.len() as int) =~= s@);
    let ghost before = views(pieces@).push(current@);
    pieces.push(current);
    assert(views(pieces@) =~= before);
    pieces
}

proof fn lemma_headers_none_propagates(lines: Seq<Seq<u8>>, m: int)
    requires
        0 < m <= lines.len(),
        headers_of_lines(lines.take(m)) is None,
    ensures
        headers_of_lines(lines) is None,
    decreases lines.len() - m,
{
    if m < lines.len() {
        assert(lines.take(m + 1).drop_last() =~= lines.take(m));
        lemma_headers_none_propagates(lines, m + 1);
    } else {
        assert(lines.take(m) =~= lines);
    }
}

/// Finds both line feeds that frame a cached response.
fn find_frame_cut(data: &[u8]) -> (res: Option<(usize, usize)>)
    ensures
        match res {
            Some((i, j)) => frame_cut(data@) == Some((i as nat, j as nat)) && i < j < data.len(),
            None => frame_cut(data@) is None,
        },
{
    assert(data@.skip(0) =~= data@);
    let i = match find_byte(data, 0, 0x0a) {
        Some(i) => i,
        None => return None,
    };
    match find_byte(data, i + 1, 0x0a) {
        Some(j) => Some((i, j)),
        None => None,
    }
}

/// Splits one header line at its first tab.
fn split_header_line(line: &[u8]) -> (res: Option<(Vec<u8>, Vec<u8>)>)
    ensures
        match res {
            Some(h) => header_of_line(line@) == Some((h.0@, h.1@)),
            None => header_of_line(line@) is None,
        },
{
    assert(line@.skip(0) =~= line@);
    match find_byte(line, 0, 0x09) {
        Some(t) => {
            let name = crate::bytes::copy_range(line, 0, t);
            let value = crate::bytes::copy_range(line, t + 1, line.len());
            assert(name@ =~= line@.take(t as int));
            assert(value@ =~= line@.skip((t + 1) as int));
            Some((name, value))
        },
        None => None,
    }
}

/// Reads a header block: lines cut at `\r`, each split at its first tab.
fn parse_header_block(block: &[u8]) -> (res: Option<Vec<(Vec<u8>, Vec<u8>)>>)
    ensures
        match res {
            Some(hs) => headers_of_lines(split_on(block@, cr())) == Some(header_views(hs@)),
            None => headers_of_lines(split_on(block@, cr())) is None,
        },
{
    let lines = split_bytes(block, 0x0d);
    let ghost lv = views(lines@);
    proof { lemma_split_on_nonempty(block@, cr()); }
    let mut headers: Vec<(Vec<u8>, Vec<u8>)> = Vec::new();
    let mut m: usize = 0;
    assert(lv.take(0) =~= Seq::<Seq<u8>>::empty());
    assert(header_views(headers@) =~= Seq::empty());
    while m < lines.len()
        invariant
            lv == views(lines@),
            lv == split_on(block@, cr()),
            m <= lines@.len(),
            headers_of_lines(lv.take(m as int)) == Some(header_views(headers@)),
        decreases lines@.len() - m,
    {
        let ghost prefix = lv.take((m + 1) as int);
        proof {
            assert(prefix.drop_last() =~= lv.take(m as int));
            assert(prefix.last() == lines@[m as int]@);
        }
        match split_header_line(lines[m].as_slice()) {
            Some(h) => {
                let ghost before = headers@;
                headers.push(h);
                assert(header_views(headers@) =~= header_views(before).push((h.0@, h.1@)));
                assert(headers_of_lines(prefix) == Some(header_views(headers@)));
            },
            None => {
                assert(headers_of_lines(prefix) is None);
                proof { lemma_headers_none_propagates(lv, m + 1); }
                return None;
            },
        }
        m = m + 1;
    }
    assert(lv.take(lines@.len() as int) =~= lv);
    Some(headers)
}

/// Reads a framed response back into status, headers and body.
pub fn deserialize_http_response(data: &[u8]) -> (res: Result<ResponseParts, FrameError>)
    ensures
        match res {
            Ok(p) => response_decoding(data@) == Ok::<(u16, Seq<(Seq<u8>, Seq<u8>)>, Seq<u8>), FrameError>((p.status, header_views(p.headers@), p.body@)),
            Err(e) => response_decoding(data@) == Err::<(u16, Seq<(Seq<u8>, Seq<u8>)>, Seq<u8>), FrameError>(e),
        },
{
    let (i, j) = match find_frame_cut(data) {
        Some(cut) => cut,
        None => return Err(FrameError::Corrupted),
    };
    let status_bytes = crate::bytes::copy_range(data, 0, i);
    assert(status_bytes@ =~= data@.take(i as int));
    let code = match parse_u16_decimal(status_bytes.as_slice()) {
        Some(c) => c,
        None => return Err(FrameError::BadStatus),
    };
    if code < 100 || code >= 1000 {
        return Err(FrameError::BadStatus);
    }
    let block = crate::bytes::copy_range(data, i + 1, j);
    let headers = match parse_header_block(block.as_slice()) {
        Some(hs) => hs,
        None => return Err(FrameError::Corrupted),
    };
    let body = crate::bytes::copy_range(data, j + 1, data.len());
    assert(body@ =~= data@.skip(j + 1));
    Ok(ResponseParts { status: code, headers, body })
}

// ------------------------------------------------------------ round trip

proof fn lemma_decimal_text_read_back(n: nat)
    ensures
        ascii(decimal_text(n)).len() >= 1,
        all_digits(ascii(decimal_text(n))),
        ascii(decimal_text(n))[0] != 0x2bu8,
        decimal_bytes_value(ascii(decimal_text(n))) == n,
        forall|i: int| 0 <= i < ascii(decimal_text(n)).len() ==> #[trigger] ascii(decimal_text(n))[i] != lf(),
    decreases n,
{
    let d = ascii(decimal_text(n));
    if n < 10 {
        let c = ((n + '0' as nat) as char);
        assert(decimal_text(n) == seq![c]);
        assert(d =~= seq![c as u8]);
        assert((c as u8) == (n + 48) as u8);
        assert(decimal_digit(d[0]) == Some(n));
        assert(d.drop_last() =~= Seq::<u8>::empty());
        assert(decimal_bytes_value(d) == decimal_bytes_value(d.drop_last()) * 10 + n);
    } else {
        lemma_decimal_text_read_back(n / 10);
        let prev = ascii(decimal_text(n / 10));
        let c = (((n % 10) + '0' as nat) as char);
        assert(decimal_text(n) == decimal_text(n / 10).push(c));
        assert(d =~= prev.push(c as u8));
        assert((c as u8) == ((n % 10) + 48) as u8);
        assert(decimal_digit(c as u8) == Some(n % 10));
        assert(d.drop_last() =~= prev);
        assert(d[0] == prev[0]);
        assert((n / 10) * 10 + n % 10 == n) by (nonlinear_arith);
        assert(decimal_bytes_value(d) == decimal_bytes_value(prev) * 10 + n % 10);
        assert forall|i: int| 0 <= i < d.len() implies #[trigger] decimal_digit(d[i]) is Some by {
            if i < prev.len() {
                assert(d[i] == prev[i]);
            }
        }
        assert forall|i: int| 0 <= i < d.len() implies #[trigger] d[i] != lf() by {
            if i < prev.len() {
                assert(d[i] == prev[i]);
            }
        }
    }
}

/// `b` does not occur in `s`.
pub open spec fn free_of(s: Seq<u8>, b: u8) -> bool {
    forall|i: int| 0 <= i < s.len() ==> #[trigger] s[i] != b
}

proof fn lemma_split_on_free(y: Seq<u8>, b: u8)
    requires
        free_of(y, b),
    ensures
        split_on(y, b) == seq![y],
    decreases y.len(),
{
    if y.len() == 0 {
        assert(y =~= Seq::<u8>::empty());
    } else {
        let init = y.drop_last();
        assert(free_of(init, b)) by {
            assert forall|i: int| 0 <= i < init.len() implies #[trigger] init[i] != b by {
                assert(init[i] == y[i]);
            }
        }
        lemma_split_on_free(init, b);
        assert(y.last() != b);
        assert(init.push(y.last()) =~= y);
        assert(split_on(y, b) =~= seq![y]);
    }
}

proof fn lemma_split_on_append(x: Seq<u8>, b: u8, y: Seq<u8>)
    requires
        free_of(y, b),
    ensures
        split_on(x + seq![b] + y, b) == split_on(x, b).push(y),
    decreases y.len(),
{
    let whole = x + seq![b] + y;
    if y.len() == 0 {
        assert(whole.drop_last() =~= x);
        assert(whole.last() == b);
        assert(y =~= Seq::<u8>::empty());
    } else {
        let init = y.drop_last();
        assert(free_of(init, b)) by {
            assert forall|i: int| 0 <= i < init.len() implies #[trigger] init[i] != b by {
                assert(init[i] == y[i]);
            }
        }
        lemma_split_on_append(x, b, init);
        assert(whole.drop_last() =~= x + seq![b] + init);
        assert(whole.last() == y.last());
        assert(y.last() != b);
        assert(init.push(y.last()) =~= y);
        assert(split_on(whole, b) =~= split_on(x, b).push(y));
    }
}

/// Cutting parts joined with `sep` at `sep` gives the parts back, when
/// there is at least one part and none holds `sep`.
proof fn lemma_split_join(parts: Seq<Seq<u8>>, sep: u8)
    requires
        parts.len() >= 1,
        forall|i: int| 0 <= i < parts.len() ==> free_of(#[trigger] parts[i], sep),
    ensures
        split_on(join_with(parts, sep), sep) == parts,
    decreases parts.len(),
{
    if parts.len() == 1 {
        assert(free_of(parts[0], sep));
        lemma_split_on_free(parts[0], sep);
        assert(parts =~= seq![parts[0]]);
    } else {
        let init = parts.drop_last();
        assert forall|i: int| 0 <= i < init.len() implies free_of(#[trigger] init[i], sep) by {
            assert(init[i] == parts[i]);
        }
        lemma_split_join(init, sep);
        assert(free_of(parts[parts.len() - 1], sep));
        lemma_split_on_append(join_with(init, sep), sep, parts.last());
        assert(init.push(parts.last()) =~= parts);
    }
}

/// A byte other than `sep` that no part holds is not in the joined parts.
proof fn lemma_join_free(parts: Seq<Seq<u8>>, sep: u8, x: u8)
    requires
        sep != x,
        forall|i: int| 0 <= i < parts.len() ==> free_of(#[trigger] parts[i], x),
    ensures
        free_of(join_with(parts, sep), x),
    decreases parts.len(),
{
    if parts.len() == 1 {
        assert(free_of(parts[0], x));
    } else if parts.len() > 1 {
        let init = parts.drop_last();
        assert forall|i: int| 0 <= i < init.len() implies free_of(#[trigger] init[i], x) by {
            assert(init[i] == parts[i]);
        }
        lemma_join_free(init, sep, x);
        assert(free_of(parts[parts.len() - 1], x));
        let j = join_with(parts, sep);
        let ji = join_with(init, sep);
        assert(j == ji + seq![sep] + parts.last());
        assert forall|i: int| 0 <= i < j.len() implies #[trigger] j[i] != x by {
            if i < ji.len() {
                assert(j[i] == ji[i]);
            } else if i > ji.len() {
                assert(j[i] == parts.last()[i - ji.len() - 1]);
            }
        }
    }
}

/// A header that survives framing: its name holds no tab, CR or LF, its
/// value no CR or LF.
pub open spec fn frame_safe(h: (Seq<u8>, Seq<u8>)) -> bool {
    &&& free_of(h.0, tab())
    &&& free_of(h.0, cr())
    &&& free_of(h.0, lf())
    &&& free_of(h.1, cr())
    &&& free_of(h.1, lf())
}

proof fn lemma_header_line_read_back(h: (Seq<u8>, Seq<u8>))
    requires
        frame_safe(h),
    ensures
        header_of_line(header_line(h)) == Some(h),
        free_of(header_line(h), cr()),
        free_of(header_line(h), lf()),
{
    let line = header_line(h);
    let n = h.0.len() as int;
    assert(line[n] == tab());
    assert forall|j: int| 0 <= j < n implies line[j] != tab() by {
        assert(line[j] == h.0[j]);
    }
    lemma_first_index_at(line, tab(), n);
    assert(line.take(n) =~= h.0);
    assert(line.skip(n + 1) =~= h.1);
    assert forall|j: int| 0 <= j < line.len() implies #[trigger] line[j] != cr() && line[j] != lf() by {
        if j < n {
            assert(line[j] == h.0[j]);
        } else if j > n {
            assert(line[j] == h.1[j - n - 1]);
        }
    }
}

proof fn lemma_header_lines_read_back(hs: Seq<(Seq<u8>, Seq<u8>)>)
    requires
        forall|i: int| 0 <= i < hs.len() ==> frame_safe(#[trigger] hs[i]),
    ensures
        headers_of_lines(hs.map_values(|h: (Seq<u8>, Seq<u8>)| header_line(h))) == Some(hs),
    decreases hs.len(),
{
    let lines = hs.map_values(|h: (Seq<u8>, Seq<u8>)| header_line(h));
    if hs.len() == 0 {
        assert(lines =~= Seq::<Seq<u8>>::empty());
        assert(hs =~= Seq::<(Seq<u8>, Seq<u8>)>::empty());
    } else {
        let init = hs.drop_last();
        assert forall|i: int| 0 <= i < init.len() implies frame_safe(#[trigger] init[i]) by {
            assert(init[i] == hs[i]);
        }
        lemma_header_lines_read_back(init);
        assert(lines.drop_last() =~= init.map_values(|h: (Seq<u8>, Seq<u8>)| header_line(h)));
        assert(frame_safe(hs[hs.len() - 1]));
        lemma_header_line_read_back(hs.last());
        assert(lines.last() == header_line(hs.last()));
        assert(init.push(hs.last()) =~= hs);
    }
}

/// What the cache reads back of a framed response is what was framed:
/// status, headers in order and body, for a status of three digits, at
/// least one header, and headers that survive framing.
pub proof fn lemma_response_frame_round_trip(status: u16, hs: Seq<(Seq<u8>, Seq<u8>)>, body: Seq<u8>)
    requires
        100 <= status < 1000,
        hs.len() >= 1,
        forall|i: int| 0 <= i < hs.len() ==> frame_safe(#[trigger] hs[i]),
    ensures
        response_decoding(response_frame(status, hs, body))
            == Ok::<(u16, Seq<(Seq<u8>, Seq<u8>)>, Seq<u8>), FrameError>((status, hs, body)),
{
    let d = ascii(decimal_text(status as nat));
    let lines = hs.map_values(|h: (Seq<u8>, Seq<u8>)| header_line(h));
    let block = join_with(lines, cr());
    let data = response_frame(status, hs, body);
    lemma_decimal_text_read_back(status as nat);
    assert forall|i: int| 0 <= i < lines.len() implies free_of(#[trigger] lines[i], cr()) && free_of(lines[i], lf()) by {
        assert(frame_safe(hs[i]));
        lemma_header_line_read_back(hs[i]);
    }
    assert forall|i: int| 0 <= i < lines.len() implies free_of(#[trigger] lines[i], lf()) by {
        assert(free_of(lines[i], lf()));
    }
    lemma_join_free(lines, cr(), lf());
    assert forall|i: int| 0 <= i < lines.len() implies free_of(#[trigger] lines[i], cr()) by {
        assert(free_of(lines[i], cr()));
    }
    lemma_split_join(lines, cr());
    lemma_header_lines_read_back(hs);
    let i = d.len() as int;
    let j = block.len() as int;
    assert(data == d + seq![lf()] + block + seq![lf()] + body);
    assert(data[i] == lf());
    assert forall|k: int| 0 <= k < i implies data[k] != lf() by {
        assert(data[k] == d[k]);
    }
    lemma_first_index_at(data, lf(), i);
    let rest = data.skip(i + 1);
    assert(rest =~= block + seq![lf()] + body);
    assert(rest[j] == lf());
    assert forall|k: int| 0 <= k < j implies rest[k] != lf() by {
        assert(rest[k] == block[k]);
    }
    lemma_first_index_at(rest, lf(), j);
    assert(frame_cut(data) == Some((i as nat, (i + 1 + j) as nat)));
    assert(data.take(i) =~= d);
    assert(status_digits(d) == d);
    assert(decimal_u16(d) == Some(status));
    assert(data.subrange(i + 1, i + 1 + j) =~= block);
    assert(data.skip(i + 1 + j + 1) =~= body);
}

} // verus!
