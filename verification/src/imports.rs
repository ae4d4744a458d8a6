//! Resolution of the imports of a program: the order in which the imported
//! programs are listed, and which fetched copy of each is kept.
//!
//! The programs are fetched depth first: each import of a program is
//! fetched, then its own imports, before the next import. The fetched
//! imports form a tree of `ImportTree` nodes; `import_order` lists them as
//! the resolution does: for each import in turn, first the programs it
//! imports (as resolved for it), then the import itself. A program listed
//! again keeps its first place and takes the copy fetched last.
use vstd::prelude::*;
use indexmap::IndexMap;

verus! {

/// An imported program, as fetched: its id, the number of the fetch that
/// brought it (counting from zero in fetch order), and the programs that
/// it imports, in order.
#[derive(Debug)]
pub struct ImportTree {
    pub id: String,
    pub fetch: usize,
    pub imports: Vec<ImportTree>,
}

/// The (program id, fetch number) pairs of a resolution, in order.
pub type FoundImports = Seq<(Seq<char>, usize)>;

/// The entries of an `IndexMap<String, usize>`, in the map's order.
pub uninterp spec fn fetch_entries(m: IndexMap<String, usize>) -> Seq<(Seq<char>, usize)>;

/// Some entry has program id `k`.
pub open spec fn has_id(f: FoundImports, k: Seq<char>) -> bool {
    exists|i: int| 0 <= i < f.len() && #[trigger] f[i].0 == k
}

/// The position of the entry with program id `k`.
pub open spec fn id_index(f: FoundImports, k: Seq<char>) -> int {
    choose|i: int| 0 <= i < f.len() && #[trigger] f[i].0 == k
}

/// No program id occurs twice.
pub open spec fn ids_distinct(f: FoundImports) -> bool {
    forall|i: int, j: int|
        0 <= i < f.len() && 0 <= j < f.len() && i != j ==> #[trigger] f[i].0 != #[trigger] f[j].0
}

/// Recording that program `k` was found in fetch `v`: a program already
/// listed keeps its place and takes the new fetch; a new one goes last.
pub open spec fn found_insert(f: FoundImports, k: Seq<char>, v: usize) -> FoundImports {
    if has_id(f, k) {
        f.update(id_index(f, k), (k, v))
    } else {
        f.push((k, v))
    }
}

/// Recording every entry of `g`, in order.
pub open spec fn found_insert_all(f: FoundImports, g: FoundImports) -> FoundImports
    decreases g.len(),
{
    if g.len() == 0 {
        f
    } else {
        found_insert(found_insert_all(f, g.drop_last()), g.last().0, g.last().1)
    }
}

/// The resolution of a list of imports: for each import in turn, the
/// resolution of its own imports is recorded, then the import itself.
pub open spec fn resolve_imports(trees: Seq<ImportTree>) -> FoundImports
    decreases trees,
{
    if trees.len() == 0 {
        Seq::empty()
    } else {
        let t = trees.last();
        proof {
            assert(decreases_to!(trees => trees[trees.len() - 1]));
            assert(decreases_to!(trees => trees.drop_last())) by {
                assert(trees.drop_last() == trees.subrange(0, trees.len() - 1));
            }
            assert(decreases_to!(t => t.imports@)) by {
                vstd::std_specs::vec::axiom_vec_decreases_to_view(t.imports);
            }
        }
        let found = resolve_imports(trees.drop_last());
        let nested = resolve_imports(t.imports@);
        found_insert(found_insert_all(found, nested), t.id@, t.fetch)
    }
}

/// The program ids listed in entries.
pub open spec fn found_ids(f: FoundImports) -> Set<Seq<char>> {
    Set::new(|k: Seq<char>| has_id(f, k))
}

/// The ids of every program in the trees, at any depth.
pub open spec fn tree_ids(trees: Seq<ImportTree>) -> Set<Seq<char>>
    decreases trees,
{
    if trees.len() == 0 {
        Set::empty()
    } else {
        let t = trees.last();
        proof {
            assert(decreases_to!(trees => trees[trees.len() - 1]));
            assert(decreases_to!(trees => trees.drop_last())) by {
                assert(trees.drop_last() == trees.subrange(0, trees.len() - 1));
            }
            assert(decreases_to!(t => t.imports@)) by {
                vstd::std_specs::vec::axiom_vec_decreases_to_view(t.imports);
            }
        }
        tree_ids(trees.drop_last()).union(tree_ids(t.imports@)).insert(t.id@)
    }
}

/// Recording an entry adds its id to the listed ids.
pub proof fn lemma_found_insert_ids(f: FoundImports, k: Seq<char>, v: usize)
    ensures
        found_ids(found_insert(f, k, v)) == found_ids(f).insert(k),
{
    let g = found_insert(f, k, v);
    assert forall|x: Seq<char>| found_ids(g).contains(x) <==> found_ids(f).insert(k).contains(x) by {
        if has_id(f, k) {
            let i = id_index(f, k);
            if has_id(g, x) {
                let a = choose|a: int| 0 <= a < g.len() && #[trigger] g[a].0 == x;
                if a != i {
                    assert(f[a].0 == x);
                }
            }
            if has_id(f, x) {
                let a = choose|a: int| 0 <= a < f.len() && #[trigger] f[a].0 == x;
                if a != i {
                    assert(g[a].0 == x);
                } else {
                    assert(g[i].0 == k);
                }
            }
            if x == k {
                assert(g[i].0 == k);
            }
        } else {
            if has_id(g, x) {
                let a = choose|a: int| 0 <= a < g.len() && #[trigger] g[a].0 == x;
                if a < f.len() {
                    assert(f[a].0 == x);
                }
            }
            if has_id(f, x) {
                let a = choose|a: int| 0 <= a < f.len() && #[trigger] f[a].0 == x;
                assert(g[a].0 == x);
            }
            if x == k {
                assert(g[f.len() as int].0 == k);
            }
        }
    }
    assert(found_ids(g) =~= found_ids(f).insert(k));
}

/// Recording all entries of `g` adds their ids to the listed ids.
pub proof fn lemma_found_insert_all_ids(f: FoundImports, g: FoundImports)
    ensures
        found_ids(found_insert_all(f, g)) == found_ids(f).union(found_ids(g)),
    decreases g.len(),
{
    if g.len() == 0 {
        assert(found_ids(g) =~= Set::empty());
        assert(found_ids(f).union(found_ids(g)) =~= found_ids(f));
    } else {
        let d = g.drop_last();
        lemma_found_insert_all_ids(f, d);
        lemma_found_insert_ids(found_insert_all(f, d), g.last().0, g.last().1);
        assert forall|x: Seq<char>| found_ids(g).contains(x) <==> found_ids(d).insert(g.last().0).contains(x) by {
            if has_id(g, x) {
                let a = choose|a: int| 0 <= a < g.len() && #[trigger] g[a].0 == x;
                if a < d.len() {
                    assert(d[a].0 == x);
                }
            }
            if has_id(d, x) {
                let a = choose|a: int| 0 <= a < d.len() && #[trigger] d[a].0 == x;
                assert(g[a].0 == x);
            }
            if x == g.last().0 {
                assert(g[g.len() - 1].0 == x);
            }
        }
        assert(found_ids(g) =~= found_ids(d).insert(g.last().0));
        assert(found_ids(f).union(found_ids(d)).insert(g.last().0) =~= found_ids(f).union(found_ids(g)));
    }
}

/// The resolution lists every imported program, at any depth, and nothing
/// else.
pub proof fn lemma_resolution_lists_every_import(trees: Seq<ImportTree>)
    ensures
        found_ids(resolve_imports(trees)) == tree_ids(trees),
    decreases trees,
{
    if trees.len() == 0 {
        assert(found_ids(resolve_imports(trees)) =~= Set::empty());
    } else {
        let t = trees.last();
        assert(decreases_to!(trees => trees[trees.len() - 1]));
        assert(decreases_to!(trees => trees.drop_last())) by {
            assert(trees.drop_last() == trees.subrange(0, trees.len() - 1));
        }
        assert(decreases_to!(t => t.imports@)) by {
            vstd::std_specs::vec::axiom_vec_decreases_to_view(t.imports);
        }
        lemma_resolution_lists_every_import(trees.drop_last());
        lemma_resolution_lists_every_import(t.imports@);
        let found = resolve_imports(trees.drop_last());
        let nested = resolve_imports(t.imports@);
        lemma_found_insert_all_ids(found, nested);
        lemma_found_insert_ids(found_insert_all(found, nested), t.id@, t.fetch);
    }
}

/// Recording entries into a record with distinct ids keeps ids distinct.
pub proof fn lemma_found_insert_all_distinct(f: FoundImports, g: FoundImports)
    requires
        ids_distinct(f),
    ensures
        ids_distinct(found_insert_all(f, g)),
    decreases g.len(),
{
    if g.len() > 0 {
        lemma_found_insert_all_distinct(f, g.drop_last());
        lemma_found_insert_distinct(found_insert_all(f, g.drop_last()), g.last().0, g.last().1);
    }
}

/// A resolution lists no program twice.
pub proof fn lemma_resolution_distinct(trees: Seq<ImportTree>)
    ensures
        ids_distinct(resolve_imports(trees)),
    decreases trees,
{
    if trees.len() > 0 {
        let t = trees.last();
        assert(decreases_to!(trees => trees[trees.len() - 1]));
        assert(decreases_to!(trees => trees.drop_last())) by {
            assert(trees.drop_last() == trees.subrange(0, trees.len() - 1));
        }
        assert(decreases_to!(t => t.imports@)) by {
            vstd::std_specs::vec::axiom_vec_decreases_to_view(t.imports);
        }
        lemma_resolution_distinct(trees.drop_last());
        let found = resolve_imports(trees.drop_last());
        let nested = resolve_imports(t.imports@);
        lemma_found_insert_all_distinct(found, nested);
        lemma_found_insert_distinct(found_insert_all(found, nested), t.id@, t.fetch);
    }
}

/// Recording into `r + x` an id that `r` does not list only changes `x`.
proof fn lemma_found_insert_concat(r: FoundImports, x: FoundImports, k: Seq<char>, v: usize)
    requires
        ids_distinct(r + x),
        !has_id(r, k),
    ensures
        found_insert(r + x, k, v) == r + found_insert(x, k, v),
{
    let rx = r + x;
    if has_id(x, k) {
        let j = id_index(x, k);
        assert(rx[r.len() + j].0 == k);
        let i = id_index(rx, k);
        assert(i == r.len() + j);
        assert(rx.update(i, (k, v)) =~= r + x.update(j, (k, v)));
    } else {
        if has_id(rx, k) {
            let a = choose|a: int| 0 <= a < rx.len() && #[trigger] rx[a].0 == k;
            if a < r.len() {
                assert(r[a].0 == k);
            } else {
                assert(x[a - r.len()].0 == k);
            }
        }
        assert(rx.push((k, v)) =~= r + x.push((k, v)));
    }
}

/// Recording entries whose ids `r` does not list appends their own record
/// to `r`.
proof fn lemma_found_insert_all_concat(r: FoundImports, n: FoundImports)
    requires
        ids_distinct(r),
        forall|k: Seq<char>| has_id(r, k) ==> !has_id(n, k),
    ensures
        found_insert_all(r, n) == r + found_insert_all(Seq::empty(), n),
    decreases n.len(),
{
    if n.len() == 0 {
        assert(r + Seq::<(Seq<char>, usize)>::empty() =~= r);
    } else {
        let d = n.drop_last();
        let l = n.last();
        assert forall|k: Seq<char>| has_id(r, k) implies !has_id(d, k) by {
            if has_id(d, k) {
                let a = choose|a: int| 0 <= a < d.len() && #[trigger] d[a].0 == k;
                assert(n[a].0 == k);
            }
        }
        lemma_found_insert_all_concat(r, d);
        let x = found_insert_all(Seq::empty(), d);
        lemma_found_insert_all_distinct(Seq::empty(), d);
        lemma_found_insert_all_ids(Seq::empty(), d);
        assert(found_ids(Seq::<(Seq<char>, usize)>::empty()) =~= Set::empty());
        assert(ids_distinct(r + x)) by {
            let rx = r + x;
            assert forall|a: int, b: int|
                0 <= a < rx.len() && 0 <= b < rx.len() && a != b implies #[trigger] rx[a].0
                != #[trigger] rx[b].0 by {
                if a < r.len() && b >= r.len() {
                    assert(found_ids(x).contains(x[b - r.len()].0));
                    assert(has_id(r, rx[a].0));
                    if rx[a].0 == rx[b].0 {
                        assert(has_id(d, x[b - r.len()].0));
                    }
                } else if b < r.len() && a >= r.len() {
                    assert(found_ids(x).contains(x[a - r.len()].0));
                    assert(has_id(r, rx[b].0));
                    if rx[a].0 == rx[b].0 {
                        assert(has_id(d, x[a - r.len()].0));
                    }
                } else if a >= r.len() && b >= r.len() {
                    assert(x[a - r.len()].0 != x[b - r.len()].0);
                }
            }
        }
        assert(has_id(n, l.0)) by {
            assert(n[n.len() - 1].0 == l.0);
        }
        lemma_found_insert_concat(r, x, l.0, l.1);
    }
}

/// Resolving one import whose own imports (at any depth) do not include it
/// lists the resolution of its imports, in that order, and then the import
/// itself: every program comes after the programs it imports.
pub proof fn lemma_single_import_resolution(t: ImportTree)
    requires
        !tree_ids(t.imports@).contains(t.id@),
    ensures
        resolve_imports(seq![t]) == resolve_imports(t.imports@).push((t.id@, t.fetch)),
{
    let trees = seq![t];
    assert(trees.drop_last() =~= Seq::<ImportTree>::empty());
    assert(trees.last() == t);
    let nested = resolve_imports(t.imports@);
    lemma_resolution_distinct(t.imports@);
    lemma_found_insert_all_into_empty(nested);
    lemma_resolution_lists_every_import(t.imports@);
    assert(!found_ids(nested).contains(t.id@));
    assert(resolve_imports(trees) == found_insert(
        found_insert_all(resolve_imports(Seq::<ImportTree>::empty()), nested),
        t.id@,
        t.fetch,
    ));
}

/// Resolving a list of imports whose programs (at any depth) are all
/// different from those of a further import `t` lists the resolution of
/// the list, in that order, followed by the resolution of `t` alone.
pub proof fn lemma_sibling_resolutions_concatenate(trees: Seq<ImportTree>, t: ImportTree)
    requires
        tree_ids(trees).disjoint(tree_ids(seq![t])),
    ensures
        resolve_imports(trees.push(t)) == resolve_imports(trees) + resolve_imports(seq![t]),
{
    let all = trees.push(t);
    assert(all.drop_last() =~= trees);
    assert(all.last() == t);
    let single = seq![t];
    assert(single.drop_last() =~= Seq::<ImportTree>::empty());
    assert(single.last() == t);
    let r = resolve_imports(trees);
    let n = resolve_imports(t.imports@);
    lemma_resolution_distinct(trees);
    lemma_resolution_lists_every_import(trees);
    lemma_resolution_lists_every_import(t.imports@);
    lemma_resolution_lists_every_import(single);
    assert(tree_ids(single) == tree_ids(Seq::<ImportTree>::empty()).union(tree_ids(t.imports@)).insert(t.id@));
    assert forall|k: Seq<char>| has_id(r, k) implies !has_id(n, k) by {
        assert(found_ids(r).contains(k));
        if has_id(n, k) {
            assert(found_ids(n).contains(k));
            assert(tree_ids(single).contains(k));
        }
    }
    lemma_found_insert_all_concat(r, n);
    let x = found_insert_all(Seq::empty(), n);
    lemma_found_insert_all_distinct(Seq::empty(), n);
    lemma_found_insert_all_ids(Seq::empty(), n);
    assert(found_ids(Seq::<(Seq<char>, usize)>::empty()) =~= Set::empty());
    assert(!has_id(r, t.id@)) by {
        if has_id(r, t.id@) {
            assert(found_ids(r).contains(t.id@));
            assert(tree_ids(single).contains(t.id@));
        }
    }
    assert(ids_distinct(r + x)) by {
        let rx = r + x;
        assert forall|a: int, b: int|
            0 <= a < rx.len() && 0 <= b < rx.len() && a != b implies #[trigger] rx[a].0
            != #[trigger] rx[b].0 by {
            if a < r.len() && b >= r.len() {
                assert(found_ids(x).contains(x[b - r.len()].0));
                assert(has_id(r, rx[a].0));
            } else if b < r.len() && a >= r.len() {
                assert(found_ids(x).contains(x[a - r.len()].0));
                assert(has_id(r, rx[b].0));
            } else if a >= r.len() && b >= r.len() {
                assert(x[a - r.len()].0 != x[b - r.len()].0);
            }
        }
    }
    lemma_found_insert_concat(r, x, t.id@, t.fetch);
    assert(resolve_imports(single) == found_insert(
        found_insert_all(resolve_imports(Seq::<ImportTree>::empty()), n),
        t.id@,
        t.fetch,
    ));
}

/// `IndexMap::new`: a map with no entries.
#[verifier::external_body]
fn found_map_new() -> (m: IndexMap<String, usize>)
    ensures
        fetch_entries(m) == Seq::<(Seq<char>, usize)>::empty(),
{
    IndexMap::new()
}

/// `IndexMap::len`: the number of entries.
#[verifier::external_body]
fn found_map_len(m: &IndexMap<String, usize>) -> (n: usize)
    ensures
        n == fetch_entries(*m).len(),
{
    m.len()
}

/// `IndexMap::get_index`: the key and value of the entry at position
/// `index`, or `None` past the end.
#[verifier::external_body]
fn found_map_get_index(m: &IndexMap<String, usize>, index: usize) -> (r: Option<(&String, &usize)>)
    ensures
        index < fetch_entries(*m).len() ==> r is Some,
        index < fetch_entries(*m).len() ==> r.unwrap().0@ == fetch_entries(*m)[index as int].0,
        index < fetch_entries(*m).len() ==> *r.unwrap().1 == fetch_entries(*m)[index as int].1,
        index >= fetch_entries(*m).len() ==> r is None,
{
    m.get_index(index)
}

/// `IndexMap::insert`: where the key is present, its value is replaced in
/// place and the old value returned; otherwise the entry is appended and
/// `None` returned.
#[verifier::external_body]
fn found_map_insert(m: &mut IndexMap<String, usize>, key: String, value: usize) -> (r: Option<usize>)
    requires
        ids_distinct(fetch_entries(*old(m))),
    ensures
        fetch_entries(*final(m)) == found_insert(fetch_entries(*old(m)), key@, value),
        has_id(fetch_entries(*old(m)), key@) ==> r == Some(
            fetch_entries(*old(m))[id_index(fetch_entries(*old(m)), key@)].1,
        ),
        !has_id(fetch_entries(*old(m)), key@) ==> r is None,
{
    m.insert(key, value)
}

/// Recording the entries of `g` followed by `x` records those of `g` in
/// order, then `x`.
pub proof fn lemma_found_insert_all_push(f: FoundImports, g: FoundImports, x: (Seq<char>, usize))
    ensures
        found_insert_all(f, g.push(x)) == found_insert(found_insert_all(f, g), x.0, x.1),
{
    assert(g.push(x).drop_last() =~= g);
}

/// Recording an entry: a new program id goes last and leaves the others
/// in place; a listed one keeps its place and takes the new fetch; no other
/// entry changes.
pub proof fn lemma_found_insert_places(f: FoundImports, k: Seq<char>, v: usize)
    requires
        ids_distinct(f),
    ensures
        !has_id(f, k) ==> {
            let g = found_insert(f, k, v);
            &&& g.len() == f.len() + 1
            &&& g[f.len() as int] == (k, v)
            &&& forall|i: int| 0 <= i < f.len() ==> #[trigger] g[i] == f[i]
        },
        has_id(f, k) ==> {
            let g = found_insert(f, k, v);
            &&& g.len() == f.len()
            &&& forall|i: int| 0 <= i < f.len() && f[i].0 == k ==> #[trigger] g[i] == (k, v)
            &&& forall|i: int| 0 <= i < f.len() && f[i].0 != k ==> #[trigger] g[i] == f[i]
        },
{
    if has_id(f, k) {
        let i = id_index(f, k);
        assert forall|j: int| 0 <= j < f.len() && f[j].0 == k implies j == i by {}
    }
}

/// Recording a resolution with distinct ids into an empty record gives that
/// resolution back, in its own order.
pub proof fn lemma_found_insert_all_into_empty(g: FoundImports)
    requires
        ids_distinct(g),
    ensures
        found_insert_all(Seq::empty(), g) == g,
    decreases g.len(),
{
    if g.len() > 0 {
        let d = g.drop_last();
        assert(ids_distinct(d)) by {
            assert forall|a: int, b: int|
                0 <= a < d.len() && 0 <= b < d.len() && a != b implies #[trigger] d[a].0
                != #[trigger] d[b].0 by {
                assert(d[a] == g[a]);
                assert(d[b] == g[b]);
            }
        }
        lemma_found_insert_all_into_empty(d);
        if has_id(d, g.last().0) {
            let a = choose|a: int| 0 <= a < d.len() && #[trigger] d[a].0 == g.last().0;
            assert(g[a].0 == g[g.len() - 1].0);
        }
        assert(d.push(g.last()) =~= g);
    }
}

/// Recording an entry keeps program ids distinct.
pub proof fn lemma_found_insert_distinct(f: FoundImports, k: Seq<char>, v: usize)
    requires
        ids_distinct(f),
    ensures
        ids_distinct(found_insert(f, k, v)),
{
    let g = found_insert(f, k, v);
    if has_id(f, k) {
        let i = id_index(f, k);
        assert forall|a: int, b: int|
            0 <= a < g.len() && 0 <= b < g.len() && a != b implies #[trigger] g[a].0
            != #[trigger] g[b].0 by {
            if a == i {
                assert(f[b].0 == g[b].0);
            } else if b == i {
                assert(f[a].0 == g[a].0);
            } else {
                assert(f[a].0 == g[a].0);
                assert(f[b].0 == g[b].0);
            }
        }
    } else {
        assert forall|a: int, b: int|
            0 <= a < g.len() && 0 <= b < g.len() && a != b implies #[trigger] g[a].0
            != #[trigger] g[b].0 by {
            if a == f.len() {
                assert(f[b].0 == g[b].0);
            } else if b == f.len() {
                assert(f[a].0 == g[a].0);
            }
        }
    }
}

/// Records every entry of `nested` into `found`.
fn insert_all(found: &mut IndexMap<String, usize>, nested: &IndexMap<String, usize>)
    requires
        ids_distinct(fetch_entries(*old(found))),
    ensures
        ids_distinct(fetch_entries(*final(found))),
        fetch_entries(*final(found)) == found_insert_all(
            fetch_entries(*old(found)),
            fetch_entries(*nested),
        ),
{
    let ghost start = fetch_entries(*found);
    let ghost g = fetch_entries(*nested);
    let n = found_map_len(nested);
    let mut j: usize = 0;
    while j < n
        invariant
            n == g.len(),
            g == fetch_entries(*nested),
            j <= n,
            ids_distinct(fetch_entries(*found)),
            fetch_entries(*found) == found_insert_all(start, g.take(j as int)),
        decreases n - j,
    {
        let entry = found_map_get_index(nested, j).unwrap();
        proof {
            assert(g.take(j + 1).drop_last() =~= g.take(j as int));
            lemma_found_insert_distinct(fetch_entries(*found), entry.0@, *entry.1);
        }
        found_map_insert(found, entry.0.clone(), *entry.1);
        j += 1;
    }
    assert(g.take(n as int) =~= g);
}

/// The resolution of the imports `imports`: each imported program once, in
/// the order of resolution, with the number of the fetch whose copy is
/// kept.
pub fn import_order(imports: &Vec<ImportTree>) -> (r: IndexMap<String, usize>)
    ensures
        fetch_entries(r) == resolve_imports(imports@),
        ids_distinct(fetch_entries(r)),
    decreases imports@,
{
    let mut found = found_map_new();
    let n = imports.len();
    let mut i: usize = 0;
    while i < n
        invariant
            n == imports@.len(),
            i <= n,
            ids_distinct(fetch_entries(found)),
            fetch_entries(found) == resolve_imports(imports@.take(i as int)),
        decreases n - i,
    {
        let tree = &imports[i];
        proof {
            assert(decreases_to!(imports@ => imports@[i as int]));
            assert(decreases_to!(imports@[i as int] => imports@[i as int].imports@)) by {
                vstd::std_specs::vec::axiom_vec_decreases_to_view(imports@[i as int].imports);
            }
        }
        let nested = import_order(&tree.imports);
        insert_all(&mut found, &nested);
        proof {
            lemma_found_insert_distinct(fetch_entries(found), tree.id@, tree.fetch);
            let prefix = imports@.take(i + 1);
            assert(prefix.drop_last() =~= imports@.take(i as int));
            assert(prefix.last() == *tree);
        }
        found_map_insert(&mut found, tree.id.clone(), tree.fetch);
        i += 1;
    }
    assert(imports@.take(n as int) =~= imports@);
    found
}

} // verus!
