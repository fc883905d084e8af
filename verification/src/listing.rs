//! The files of a directory that count as CSV files, in the order in which
//! they are gone through.

use vstd::prelude::*;
use crate::text::{chars_of, lemma_code_injective, lex_compare, lex_lt, texts, Order};

verus! {

/// One entry of a directory.
#[derive(Debug, Clone, PartialEq, Eq)]
pub struct DirectoryEntry {
    /// The entry's name, without the directory.
    pub name: String,
    /// The entry is a regular file.
    pub is_file: bool,
}

/// What a directory entry is to the contracts.
pub struct EntryView {
    pub name: Seq<char>,
    pub is_file: bool,
}

impl View for DirectoryEntry {
    type V = EntryView;

    open spec fn view(&self) -> EntryView {
        EntryView { name: self.name@, is_file: self.is_file }
    }
}

/// The views of the entries, in order.
pub open spec fn entry_views(entries: Seq<DirectoryEntry>) -> Seq<EntryView> {
    entries.map_values(|e: DirectoryEntry| e@)
}

/// The name has the extension `csv`: it ends in `.csv`, written so, and
/// something stands before the dot.
pub open spec fn has_csv_extension(name: Seq<char>) -> bool {
    name.len() > 4 && name.subrange(name.len() - 4, name.len() as int) == seq!['.', 'c', 's', 'v']
}

/// The entry is a regular file whose name has the extension `csv`.
pub open spec fn qualifies(e: EntryView) -> bool {
    e.is_file && has_csv_extension(e.name)
}

/// The names of the entries that qualify, in the order of the entries.
pub open spec fn csv_names(entries: Seq<EntryView>) -> Seq<Seq<char>>
    decreases entries.len(),
{
    if entries.len() == 0 {
        Seq::empty()
    } else if qualifies(entries.last()) {
        csv_names(entries.drop_last()).push(entries.last().name)
    } else {
        csv_names(entries.drop_last())
    }
}

/// No name stands before one that comes before it in the lexicographic
/// order of code points.
pub open spec fn in_order(names: Seq<Seq<char>>) -> bool {
    forall|i: int, j: int| 0 <= i < j < names.len() ==> !lex_lt(names[j], names[i])
}

/// The lexicographic order is transitive.
pub proof fn lemma_lex_lt_transitive(a: Seq<char>, b: Seq<char>, c: Seq<char>)
    requires
        lex_lt(a, b),
        lex_lt(b, c),
    ensures
        lex_lt(a, c),
{
    let k1 = choose|k: int|
        0 <= k <= a.len() && k <= b.len() && #[trigger] a.take(k) == b.take(k) && k < b.len() && (k
            < a.len() ==> (a[k] as u32) < (b[k] as u32));
    let k2 = choose|k: int|
        0 <= k <= b.len() && k <= c.len() && #[trigger] b.take(k) == c.take(k) && k < c.len() && (k
            < b.len() ==> (b[k] as u32) < (c[k] as u32));
    let k = if k1 <= k2 {
        k1
    } else {
        k2
    };
    assert forall|i: int| 0 <= i < k implies a[i] == c[i] by {
        assert(a.take(k1)[i] == a[i]);
        assert(b.take(k1)[i] == b[i]);
        assert(b.take(k2)[i] == b[i]);
        assert(c.take(k2)[i] == c[i]);
    }
    assert(a.take(k) =~= c.take(k));
    if k1 < k2 {
        assert(b.take(k2)[k1] == b[k1]);
        assert(c.take(k2)[k1] == c[k1]);
    } else if k2 < k1 {
        assert(a.take(k1)[k2] == a[k2]);
        assert(b.take(k1)[k2] == b[k2]);
    }
}

/// Of two texts one comes before the other, or they are the same.
pub proof fn lemma_lex_total(a: Seq<char>, b: Seq<char>)
    ensures
        lex_lt(a, b) || a == b || lex_lt(b, a),
    decreases a.len(),
{
    if a.len() == 0 || b.len() == 0 {
        assert(a.take(0) =~= b.take(0));
        assert(b.take(0) =~= a.take(0));
        if a.len() == 0 && b.len() == 0 {
            assert(a =~= b);
        }
    } else if a[0] != b[0] {
        assert(a.take(0) =~= b.take(0));
        assert(b.take(0) =~= a.take(0));
        if a[0] as u32 == b[0] as u32 {
            lemma_code_injective(a[0], b[0]);
        }
    } else {
        let x = a.drop_first();
        let y = b.drop_first();
        lemma_lex_total(x, y);
        if x == y {
            assert forall|i: int| 0 <= i < a.len() implies a[i] == b[i] by {
                if i > 0 {
                    assert(a[i] == x[i - 1] && b[i] == y[i - 1]);
                }
            }
            assert(a.len() == x.len() + 1 && b.len() == y.len() + 1);
            assert(a =~= b);
        } else if lex_lt(x, y) {
            lemma_lex_lt_after_same_start(a, b);
        } else {
            lemma_lex_lt_after_same_start(b, a);
        }
    }
}

/// Two texts that start with the same character are in the order of what
/// follows it.
proof fn lemma_lex_lt_after_same_start(a: Seq<char>, b: Seq<char>)
    requires
        a.len() > 0,
        b.len() > 0,
        a[0] == b[0],
        lex_lt(a.drop_first(), b.drop_first()),
    ensures
        lex_lt(a, b),
{
    let x = a.drop_first();
    let y = b.drop_first();
    let k = choose|k: int|
        0 <= k <= x.len() && k <= y.len() && #[trigger] x.take(k) == y.take(k) && k < y.len() && (k
            < x.len() ==> (x[k] as u32) < (y[k] as u32));
    let s = a.take(k + 1);
    let u = b.take(k + 1);
    assert forall|i: int| 0 <= i < k + 1 implies #[trigger] s[i] == u[i] by {
        if i > 0 {
            assert(x.take(k)[i - 1] == x[i - 1]);
            assert(y.take(k)[i - 1] == y[i - 1]);
        }
    }
    assert(s =~= u);
    if k < x.len() {
        assert(a[k + 1] == x[k] && b[k + 1] == y[k]);
    }
}

/// Where `a` does not come after `b`, nor `b` after `c`, `a` does not
/// come after `c`.
pub proof fn lemma_lex_not_after_transitive(a: Seq<char>, b: Seq<char>, c: Seq<char>)
    requires
        !lex_lt(b, a),
        !lex_lt(c, b),
    ensures
        !lex_lt(c, a),
{
    if lex_lt(c, a) {
        lemma_lex_total(a, b);
        if lex_lt(a, b) {
            lemma_lex_lt_transitive(c, a, b);
        }
    }
}

/// `order` lists the positions of `names` in the order of the names: each
/// position once, no name before one that comes before it, and names that
/// are the same in the order of their positions.
pub open spec fn is_name_order(names: Seq<Seq<char>>, order: Seq<usize>) -> bool {
    &&& order.len() == names.len()
    &&& forall|k: int| 0 <= k < order.len() ==> #[trigger] order[k] < names.len()
    &&& forall|i: int, j: int|
        #![trigger order[i], order[j]]
        0 <= i < j < order.len() ==> order[i] != order[j] && !lex_lt(
            names[order[j] as int],
            names[order[i] as int],
        ) && (names[order[i] as int] == names[order[j] as int] ==> order[i] < order[j])
}

/// The names in the order that `order` gives.
pub open spec fn arranged_names(names: Seq<Seq<char>>, order: Seq<usize>) -> Seq<Seq<char>> {
    order.map_values(|i: usize| names[i as int])
}

/// The positions of the names in the lexicographic order of the names.
/// Names that are the same keep the order they stand in.
pub fn name_order(names: &Vec<String>) -> (order: Vec<usize>)
    ensures
        is_name_order(texts(names@), order@),
        in_order(arranged_names(texts(names@), order@)),
{
    let ghost ns = texts(names@);
    let mut order: Vec<usize> = Vec::new();
    let mut next: usize = 0;
    while next < names.len()
        invariant
            next <= names.len(),
            ns == texts(names@),
            order@.len() == next,
            forall|k: int| 0 <= k < order@.len() ==> #[trigger] order@[k] < next,
            forall|i: int, j: int|
                #![trigger order@[i], order@[j]]
                0 <= i < j < order@.len() ==> order@[i] != order@[j] && !lex_lt(
                    ns[order@[j] as int],
                    ns[order@[i] as int],
                ) && (ns[order@[i] as int] == ns[order@[j] as int] ==> order@[i] < order@[j]),
        decreases names.len() - next,
    {
        let mut p: usize = order.len();
        while p > 0 && lex_compare(names[next].as_str(), names[order[p - 1]].as_str())
            == Order::Before
            invariant
                p <= order@.len(),
                next < names.len(),
                ns == texts(names@),
                forall|k: int| 0 <= k < order@.len() ==> #[trigger] order@[k] < next,
                forall|k: int|
                    p <= k < order@.len() ==> lex_lt(ns[next as int], ns[#[trigger] order@[k] as int]),
            decreases p,
        {
            p -= 1;
        }
        let ghost before = order@;
        let ghost f = ns[next as int];
        order.insert(p, next);
        proof {
            let after = order@;
            assert(after =~= before.insert(p as int, next));
            assert forall|i: int, j: int|
                #![trigger after[i], after[j]]
                0 <= i < j < after.len() implies after[i] != after[j] && !lex_lt(
                ns[after[j] as int],
                ns[after[i] as int],
            ) && (ns[after[i] as int] == ns[after[j] as int] ==> after[i] < after[j]) by {
                if j < p {
                    assert(after[i] == before[i] && after[j] == before[j]);
                } else if j == p {
                    assert(after[i] == before[i]);
                    assert(before[i] < next);
                    if i < p - 1 {
                        assert(before[i] != before[p - 1]);
                        lemma_lex_not_after_transitive(
                            ns[before[i] as int],
                            ns[before[p - 1] as int],
                            f,
                        );
                    }
                } else if i == p {
                    assert(after[j] == before[j - 1]);
                    assert(before[j - 1] < next);
                    let g = ns[before[j - 1] as int];
                    assert(lex_lt(f, g));
                    if lex_lt(g, f) {
                        lemma_lex_lt_transitive(f, g, f);
                    }
                    lemma_lex_lt_irreflexive(f);
                } else if i < p {
                    assert(after[i] == before[i] && after[j] == before[j - 1]);
                } else {
                    assert(after[i] == before[i - 1] && after[j] == before[j - 1]);
                }
            }
            assert forall|k: int| 0 <= k < after.len() implies #[trigger] after[k] < next + 1 by {
                if k < p {
                    assert(after[k] == before[k]);
                } else if k > p {
                    assert(after[k] == before[k - 1]);
                }
            }
        }
        next += 1;
    }
    proof {
        let arranged = arranged_names(ns, order@);
        assert forall|i: int, j: int| 0 <= i < j < arranged.len() implies !lex_lt(
            arranged[j],
            arranged[i],
        ) by {
            assert(order@[i] != order@[j]);
        }
    }
    order
}

/// Tells whether a name has the extension `csv`.
pub fn is_csv_name(name: &str) -> (r: bool)
    ensures
        r == has_csv_extension(name@),
{
    let cs = chars_of(name);
    let n: usize = cs.len();
    if n <= 4 {
        return false;
    }
    let r = cs[n - 4] == '.' && cs[n - 3] == 'c' && cs[n - 2] == 's' && cs[n - 1] == 'v';
    proof {
        let tail = name@.subrange(n - 4, n as int);
        let ext = seq!['.', 'c', 's', 'v'];
        if r {
            assert(tail =~= ext);
        } else {
            assert(tail[0] == name@[n - 4] && tail[1] == name@[n - 3] && tail[2] == name@[n - 2]
                && tail[3] == name@[n - 1]);
            assert(ext[0] == '.' && ext[1] == 'c' && ext[2] == 's' && ext[3] == 'v');
        }
    }
    r
}

/// Puts `name` into a list that is in order, behind the names that do not
/// come after it.
fn insert_in_order(names: &mut Vec<String>, name: String)
    requires
        in_order(texts(old(names)@)),
    ensures
        in_order(texts(final(names)@)),
        texts(final(names)@).to_multiset() == texts(old(names)@).to_multiset().insert(name@),
{
    let mut pos: usize = 0;
    while pos < names.len() && lex_compare(names[pos].as_str(), name.as_str()) != Order::After
        invariant
            pos <= names.len(),
            names@ == old(names)@,
            forall|k: int| 0 <= k < pos ==> !lex_lt(name@, #[trigger] names@[k]@),
        decreases names.len() - pos,
    {
        pos += 1;
    }
    let ghost before = texts(names@);
    let ghost p = pos as int;
    names.insert(pos, name);
    proof {
        let after = texts(names@);
        assert(after =~= before.insert(p, name@));
        assert forall|i: int, j: int| 0 <= i < j < after.len() implies !lex_lt(
            after[j],
            after[i],
        ) by {
            if j < p {
                assert(after[i] == before[i] && after[j] == before[j]);
            } else if j == p {
                assert(after[i] == before[i]);
                assert(before[i] == old(names)@[i]@);
            } else if i == p {
                assert(after[j] == before[j - 1]);
                if lex_lt(after[j], name@) {
                    assert(before[p] == old(names)@[p]@);
                    lemma_lex_lt_transitive(before[j - 1], name@, before[p]);
                    assert(j - 1 == p || !lex_lt(before[j - 1], before[p]));
                    if j - 1 == p {
                        lemma_lex_lt_irreflexive(before[p]);
                    }
                }
            } else if i < p {
                assert(after[i] == before[i] && after[j] == before[j - 1]);
            } else {
                assert(after[i] == before[i - 1] && after[j] == before[j - 1]);
            }
        }
        assert(after.remove(p) =~= before);
        vstd::seq_lib::to_multiset_remove(after, p);
        after.to_multiset_ensures();
        assert(after.contains(name@));
        assert(after.to_multiset() =~= before.to_multiset().insert(name@));
    }
}

/// No text comes before itself.
pub proof fn lemma_lex_lt_irreflexive(a: Seq<char>)
    ensures
        !lex_lt(a, a),
{
    assert forall|k: int|
        !(0 <= k <= a.len() && k <= a.len() && #[trigger] a.take(k) == a.take(k) && k < a.len()
            && (k < a.len() ==> (a[k] as u32) < (a[k] as u32))) by {}
}

/// The names of the regular files among the entries whose name has the
/// extension `csv`, in the lexicographic order of code points, which for
/// names is the order of their bytes.
pub fn select_csv_files(entries: &Vec<DirectoryEntry>) -> (names: Vec<String>)
    ensures
        in_order(texts(names@)),
        texts(names@).to_multiset() == csv_names(entry_views(entries@)).to_multiset(),
{
    let ghost ev = entry_views(entries@);
    let mut names: Vec<String> = Vec::new();
    let mut i: usize = 0;
    proof {
        assert(ev.take(0) =~= Seq::<EntryView>::empty());
        assert(texts(names@) =~= csv_names(ev.take(0)));
    }
    while i < entries.len()
        invariant
            i <= entries.len(),
            ev == entry_views(entries@),
            in_order(texts(names@)),
            texts(names@).to_multiset() == csv_names(ev.take(i as int)).to_multiset(),
        decreases entries.len() - i,
    {
        let entry = &entries[i];
        proof {
            assert(ev.take(i + 1).drop_last() == ev.take(i as int));
            assert(ev.take(i + 1).last() == entry@);
        }
        if entry.is_file && is_csv_name(entry.name.as_str()) {
            proof {
                csv_names(ev.take(i as int)).to_multiset_ensures();
            }
            insert_in_order(&mut names, entry.name.clone());
        }
        i += 1;
    }
    assert(ev.take(entries@.len() as int) == ev);
    names
}

} // verus!
