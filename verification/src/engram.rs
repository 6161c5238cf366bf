//! The incremental engram store: an in-memory tier of changes (a "mem table"
//! of live contracts and tombstones) over an immutable base snapshot.
//!
//! Symbols are identified by the 64-bit key that their symbol path hashes to.
//! The hash is the parser's (`EngramTable::hash_symbol`), so the caller
//! computes the key, always with that one function, and hands it in with the
//! contract. The store treats equal keys as the same symbol: two symbol paths
//! that hash alike share one entry, as they do in the parser's table. The
//! base snapshot is read by the caller and handed in: what a base lookup
//! found, or the base entries themselves.

use vstd::prelude::*;
use std::collections::HashMap;
use std::collections::HashSet;
use crate::text::{chars_of, ends_with, has_suffix, str_eq};

verus! {

broadcast use vstd::std_specs::hash::group_hash_axioms;

/// Name of the snapshot file inside a project's `.ozymem` folder.
pub const ENGRAM_FILE: &'static str = "engrams.rkyv";

/// What the parser found out about one symbol of a source file.
#[derive(Clone, Debug, PartialEq)]
pub struct EngramContract {
    pub symbol_path: String,
    pub file_path: String,
    pub name: String,
    pub signature: String,
    pub line_number: u32,
    pub end_line: u32,
    pub kind: String,
    pub language: String,
    pub dependencies: Vec<String>,
    pub doc_summary: String,
}

/// The content of a contract, every text field as its characters.
pub struct ContractModel {
    pub symbol_path: Seq<char>,
    pub file_path: Seq<char>,
    pub name: Seq<char>,
    pub signature: Seq<char>,
    pub line_number: u32,
    pub end_line: u32,
    pub kind: Seq<char>,
    pub language: Seq<char>,
    pub dependencies: Seq<Seq<char>>,
    pub doc_summary: Seq<char>,
}

/// The characters of each string, in order.
pub open spec fn texts(v: Seq<String>) -> Seq<Seq<char>> {
    v.map_values(|s: String| s@)
}

impl View for EngramContract {
    type V = ContractModel;

    open spec fn view(&self) -> ContractModel {
        ContractModel {
            symbol_path: self.symbol_path@,
            file_path: self.file_path@,
            name: self.name@,
            signature: self.signature@,
            line_number: self.line_number,
            end_line: self.end_line,
            kind: self.kind@,
            language: self.language@,
            dependencies: texts(self.dependencies@),
            doc_summary: self.doc_summary@,
        }
    }
}

/// A copy of every string of `v`.
fn copy_texts(v: &Vec<String>) -> (r: Vec<String>)
    ensures
        texts(r@) == texts(v@),
{
    let mut r: Vec<String> = Vec::new();
    let mut i: usize = 0;
    while i < v.len()
        invariant
            i <= v@.len(),
            r@.len() == i,
            forall|j: int| 0 <= j < i ==> #[trigger] r@[j]@ == v@[j]@,
        decreases v@.len() - i,
    {
        r.push(v[i].clone());
        i += 1;
    }
    assert(texts(r@) =~= texts(v@));
    r
}

impl EngramContract {
    /// A copy with the same content.
    pub fn copy(&self) -> (r: EngramContract)
        ensures
            r@ == self@,
    {
        EngramContract {
            symbol_path: self.symbol_path.clone(),
            file_path: self.file_path.clone(),
            name: self.name.clone(),
            signature: self.signature.clone(),
            line_number: self.line_number,
            end_line: self.end_line,
            kind: self.kind.clone(),
            language: self.language.clone(),
            dependencies: copy_texts(&self.dependencies),
            doc_summary: self.doc_summary.clone(),
        }
    }
}

/// An entry of the mem table: a live contract, or the tombstone of a symbol
/// that was removed.
#[derive(Clone, Debug, PartialEq)]
pub enum MemoryEntry {
    Active(EngramContract),
    Deleted,
}

impl View for MemoryEntry {
    type V = Option<ContractModel>;

    /// `Some` for a live contract, `None` for a tombstone.
    open spec fn view(&self) -> Option<ContractModel> {
        match self {
            MemoryEntry::Active(c) => Some(c@),
            MemoryEntry::Deleted => None,
        }
    }
}

/// The content of a contract, if there is one.
pub open spec fn opt_model(o: Option<EngramContract>) -> Option<ContractModel> {
    match o {
        Some(c) => Some(c@),
        None => None,
    }
}

/// What a lookup of `key` answers: the mem table's entry when it has one,
/// else what the base snapshot holds.
pub open spec fn resolve(
    mem: Map<u64, Option<ContractModel>>,
    key: u64,
    base: Option<ContractModel>,
) -> Option<ContractModel> {
    if mem.contains_key(key) {
        mem[key]
    } else {
        base
    }
}

/// `m` with a tombstone at each of `keys`.
pub open spec fn tombstone(m: Map<u64, Option<ContractModel>>, keys: Seq<u64>) -> Map<
    u64,
    Option<ContractModel>,
>
    decreases keys.len(),
{
    if keys.len() == 0 {
        m
    } else {
        tombstone(m, keys.drop_last()).insert(keys.last(), None)
    }
}

/// `m` with each item made live, in order (a later item wins over an earlier
/// one with the same key).
pub open spec fn put_all(m: Map<u64, Option<ContractModel>>, items: Seq<(u64, ContractModel)>) -> Map<
    u64,
    Option<ContractModel>,
>
    decreases items.len(),
{
    if items.len() == 0 {
        m
    } else {
        put_all(m, items.drop_last()).insert(items.last().0, Some(items.last().1))
    }
}

/// The content of keyed contracts.
pub open spec fn item_models(v: Seq<(u64, EngramContract)>) -> Seq<(u64, ContractModel)> {
    v.map_values(|p: (u64, EngramContract)| (p.0, p.1@))
}

/// The keys of keyed contracts, in order.
pub open spec fn item_keys(v: Seq<(u64, EngramContract)>) -> Seq<u64> {
    v.map_values(|p: (u64, EngramContract)| p.0)
}

/// Keyed contracts as a map (a later item wins over an earlier one).
pub open spec fn items_map(items: Seq<(u64, ContractModel)>) -> Map<u64, ContractModel>
    decreases items.len(),
{
    if items.len() == 0 {
        Map::empty()
    } else {
        items_map(items.drop_last()).insert(items.last().0, items.last().1)
    }
}

/// The base snapshot with the mem table applied: the contracts that a lookup
/// finds, by key.
pub open spec fn merged(base: Map<u64, ContractModel>, mem: Map<u64, Option<ContractModel>>) -> Map<
    u64,
    ContractModel,
> {
    Map::new(
        |k: u64| resolve(mem, k, base.get(k)) is Some,
        |k: u64| resolve(mem, k, base.get(k))->0,
    )
}

/// The keys that a lookup finds a contract for, given the keys of the base
/// snapshot.
pub open spec fn live_keys(base_keys: Set<u64>, mem: Map<u64, Option<ContractModel>>) -> Set<u64> {
    Set::new(
        |k: u64|
            if mem.contains_key(k) {
                mem[k] is Some
            } else {
                base_keys.contains(k)
            },
    )
}

/// The keys a file is known to hold (none for an unknown file).
pub open spec fn keys_of_file(index: Map<Seq<char>, Seq<u64>>, file: Seq<char>) -> Seq<u64> {
    if index.contains_key(file) {
        index[file]
    } else {
        Seq::empty()
    }
}

/// Each path occurs at most once.
pub closed spec fn unique_paths(files: Seq<(String, Vec<u64>)>) -> bool {
    forall|i: int, j: int|
        0 <= i < files.len() && 0 <= j < files.len() && i != j ==> #[trigger] files[i].0@
            != #[trigger] files[j].0@
}

/// A list of (file, keys) pairs as a map from the file's text.
pub closed spec fn index_of(files: Seq<(String, Vec<u64>)>) -> Map<Seq<char>, Seq<u64>> {
    Map::new(
        |p: Seq<char>| exists|i: int| 0 <= i < files.len() && #[trigger] files[i].0@ == p,
        |p: Seq<char>| files[choose|i: int| 0 <= i < files.len() && #[trigger] files[i].0@ == p].1@,
    )
}

proof fn lemma_index_entry(files: Seq<(String, Vec<u64>)>, i: int)
    requires
        unique_paths(files),
        0 <= i < files.len(),
    ensures
        index_of(files).contains_key(files[i].0@),
        index_of(files)[files[i].0@] == files[i].1@,
{
    let p = files[i].0@;
    assert(files[i].0@ == p);
    let j = choose|j: int| 0 <= j < files.len() && #[trigger] files[j].0@ == p;
    if j != i {
        assert(files[i].0@ != files[j].0@);
    }
}

proof fn lemma_index_absent(files: Seq<(String, Vec<u64>)>, p: Seq<char>)
    requires
        forall|i: int| 0 <= i < files.len() ==> #[trigger] files[i].0@ != p,
    ensures
        !index_of(files).contains_key(p),
{
}

proof fn lemma_index_set(files: Seq<(String, Vec<u64>)>, i: int, entry: (String, Vec<u64>))
    requires
        unique_paths(files),
        0 <= i < files.len(),
        files[i].0@ == entry.0@,
    ensures
        unique_paths(files.update(i, entry)),
        index_of(files.update(i, entry)) == index_of(files).insert(entry.0@, entry.1@),
{
    let nf = files.update(i, entry);
    assert forall|a: int, b: int|
        0 <= a < nf.len() && 0 <= b < nf.len() && a != b implies #[trigger] nf[a].0@
        != #[trigger] nf[b].0@ by {
        assert(files[a].0@ != files[b].0@);
    }
    let m = index_of(files).insert(entry.0@, entry.1@);
    assert forall|q: Seq<char>| #[trigger] index_of(nf).contains_key(q) <==> m.contains_key(q) by {
        if index_of(files).contains_key(q) {
            let j = choose|j: int| 0 <= j < files.len() && #[trigger] files[j].0@ == q;
            assert(nf[j].0@ == q);
        }
        if index_of(nf).contains_key(q) {
            let j = choose|j: int| 0 <= j < nf.len() && #[trigger] nf[j].0@ == q;
            assert(files[j].0@ == q);
        }
        if q == entry.0@ {
            assert(nf[i].0@ == q);
        }
    }
    assert forall|q: Seq<char>| #[trigger] index_of(nf).contains_key(q) implies index_of(nf)[q]
        == m[q] by {
        let j = choose|j: int| 0 <= j < nf.len() && #[trigger] nf[j].0@ == q;
        lemma_index_entry(nf, j);
        if j != i {
            assert(files[j].0@ == q);
            lemma_index_entry(files, j);
        }
    }
    assert(index_of(nf) =~= m);
}

proof fn lemma_index_push(files: Seq<(String, Vec<u64>)>, entry: (String, Vec<u64>))
    requires
        unique_paths(files),
        forall|i: int| 0 <= i < files.len() ==> #[trigger] files[i].0@ != entry.0@,
    ensures
        unique_paths(files.push(entry)),
        index_of(files.push(entry)) == index_of(files).insert(entry.0@, entry.1@),
{
    let nf = files.push(entry);
    let n = files.len() as int;
    assert forall|a: int, b: int|
        0 <= a < nf.len() && 0 <= b < nf.len() && a != b implies #[trigger] nf[a].0@
        != #[trigger] nf[b].0@ by {
        if a < n && b < n {
            assert(files[a].0@ != files[b].0@);
        } else if a < n {
            assert(files[a].0@ != entry.0@);
        } else {
            assert(files[b].0@ != entry.0@);
        }
    }
    let m = index_of(files).insert(entry.0@, entry.1@);
    assert forall|q: Seq<char>| #[trigger] index_of(nf).contains_key(q) <==> m.contains_key(q) by {
        if index_of(files).contains_key(q) {
            let j = choose|j: int| 0 <= j < files.len() && #[trigger] files[j].0@ == q;
            assert(nf[j].0@ == q);
        }
        if index_of(nf).contains_key(q) && q != entry.0@ {
            let j = choose|j: int| 0 <= j < nf.len() && #[trigger] nf[j].0@ == q;
            assert(files[j].0@ == q);
        }
        if q == entry.0@ {
            assert(nf[n].0@ == q);
        }
    }
    assert forall|q: Seq<char>| #[trigger] index_of(nf).contains_key(q) implies index_of(nf)[q]
        == m[q] by {
        let j = choose|j: int| 0 <= j < nf.len() && #[trigger] nf[j].0@ == q;
        lemma_index_entry(nf, j);
        if j != n {
            assert(files[j].0@ == q);
            lemma_index_entry(files, j);
        }
    }
    assert(index_of(nf) =~= m);
}

proof fn lemma_index_remove(files: Seq<(String, Vec<u64>)>, i: int)
    requires
        unique_paths(files),
        0 <= i < files.len(),
    ensures
        unique_paths(files.remove(i)),
        index_of(files.remove(i)) == index_of(files).remove(files[i].0@),
{
    let nf = files.remove(i);
    let p = files[i].0@;
    assert forall|a: int, b: int|
        0 <= a < nf.len() && 0 <= b < nf.len() && a != b implies #[trigger] nf[a].0@
        != #[trigger] nf[b].0@ by {
        let fa = if a < i { a } else { a + 1 };
        let fb = if b < i { b } else { b + 1 };
        assert(nf[a] == files[fa]);
        assert(nf[b] == files[fb]);
        assert(files[fa].0@ != files[fb].0@);
    }
    let m = index_of(files).remove(p);
    assert forall|q: Seq<char>| #[trigger] index_of(nf).contains_key(q) <==> m.contains_key(q) by {
        if m.contains_key(q) {
            let j = choose|j: int| 0 <= j < files.len() && #[trigger] files[j].0@ == q;
            assert(j != i);
            let nj = if j < i { j } else { j - 1 };
            assert(nf[nj] == files[j]);
            assert(nf[nj].0@ == q);
        }
        if index_of(nf).contains_key(q) {
            let j = choose|j: int| 0 <= j < nf.len() && #[trigger] nf[j].0@ == q;
            let fj = if j < i { j } else { j + 1 };
            assert(nf[j] == files[fj]);
            assert(files[fj].0@ == q);
            assert(fj != i);
            assert(files[fj].0@ != files[i].0@);
        }
    }
    assert forall|q: Seq<char>| #[trigger] index_of(nf).contains_key(q) implies index_of(nf)[q]
        == m[q] by {
        let j = choose|j: int| 0 <= j < nf.len() && #[trigger] nf[j].0@ == q;
        lemma_index_entry(nf, j);
        let fj = if j < i { j } else { j + 1 };
        assert(nf[j] == files[fj]);
        lemma_index_entry(files, fj);
    }
    assert(index_of(nf) =~= m);
}

proof fn lemma_push_fresh(s: Seq<u64>, k: u64)
    requires
        s.no_duplicates(),
        !s.contains(k),
    ensures
        s.push(k).no_duplicates(),
        forall|q: u64| #[trigger] s.push(k).contains(q) <==> (s.contains(q) || q == k),
{
    let t = s.push(k);
    assert forall|a: int, b: int| 0 <= a < b < t.len() implies t[a] != t[b] by {
        if b == s.len() {
            assert(s[a] == t[a]);
        }
    }
    assert forall|q: u64| #[trigger] t.contains(q) <==> (s.contains(q) || q == k) by {
        if s.contains(q) {
            let x = choose|x: int| 0 <= x < s.len() && s[x] == q;
            assert(t[x] == q);
        }
        if t.contains(q) && q != k {
            let x = choose|x: int| 0 <= x < t.len() && t[x] == q;
            assert(s[x] == q);
        }
        assert(t[s.len() as int] == k);
    }
}

proof fn lemma_take_next(s: Seq<u64>, j: int)
    requires
        0 <= j < s.len(),
    ensures
        forall|q: u64| #[trigger] s.take(j + 1).contains(q) <==> (s.take(j).contains(q) || q == s[j]),
        s.no_duplicates() ==> !s.take(j).contains(s[j]),
{
    let a = s.take(j);
    let b = s.take(j + 1);
    assert forall|q: u64| #[trigger] b.contains(q) <==> (a.contains(q) || q == s[j]) by {
        if a.contains(q) {
            let x = choose|x: int| 0 <= x < a.len() && a[x] == q;
            assert(b[x] == q);
        }
        if b.contains(q) && q != s[j] {
            let x = choose|x: int| 0 <= x < b.len() && b[x] == q;
            assert(a[x] == q);
        }
        assert(b[j] == s[j]);
    }
    if s.no_duplicates() && a.contains(s[j]) {
        let x = choose|x: int| 0 <= x < a.len() && a[x] == s[j];
        assert(s[x] == s[j]);
    }
}

/// `c` is called `name`, or its symbol path ends in `::name`.
pub open spec fn name_matches(c: ContractModel, name: Seq<char>) -> bool {
    c.name == name || has_suffix(c.symbol_path, seq![':', ':'] + name)
}

/// The live contracts at `keys` (in that order) that match `name`.
pub open spec fn matching_live(
    keys: Seq<u64>,
    mem: Map<u64, Option<ContractModel>>,
    name: Seq<char>,
) -> Seq<ContractModel>
    decreases keys.len(),
{
    if keys.len() == 0 {
        Seq::empty()
    } else {
        let rest = matching_live(keys.drop_last(), mem, name);
        let k = keys.last();
        if mem.contains_key(k) && mem[k] is Some && name_matches(mem[k]->0, name) {
            rest.push(mem[k]->0)
        } else {
            rest
        }
    }
}

/// The base contracts (in order) that match `name` and whose key the mem
/// table does not hold.
pub open spec fn matching_base(
    items: Seq<(u64, ContractModel)>,
    mem: Map<u64, Option<ContractModel>>,
    name: Seq<char>,
) -> Seq<ContractModel>
    decreases items.len(),
{
    if items.len() == 0 {
        Seq::empty()
    } else {
        let rest = matching_base(items.drop_last(), mem, name);
        let it = items.last();
        if !mem.contains_key(it.0) && name_matches(it.1, name) {
            rest.push(it.1)
        } else {
            rest
        }
    }
}

/// The content of each contract, in order.
pub open spec fn models(v: Seq<EngramContract>) -> Seq<ContractModel> {
    v.map_values(|c: EngramContract| c@)
}

/// Whether `c` is called `name` or its symbol path ends in `suffix`
/// (`::` followed by the name).
fn contract_matches(c: &EngramContract, name: &str, suffix: &Vec<char>) -> (r: bool)
    requires
        suffix@ == seq![':', ':'] + name@,
    ensures
        r == name_matches(c@, name@),
{
    if str_eq(c.name.as_str(), name) {
        return true;
    }
    let sp = chars_of(c.symbol_path.as_str());
    ends_with(&sp, suffix)
}

/// Where a tombstone was put, the map holds one; elsewhere it is unchanged.
pub proof fn lemma_tombstone_at(m: Map<u64, Option<ContractModel>>, keys: Seq<u64>, k: u64)
    ensures
        tombstone(m, keys).contains_key(k) == (m.contains_key(k) || keys.contains(k)),
        keys.contains(k) ==> tombstone(m, keys)[k] is None,
        !keys.contains(k) ==> tombstone(m, keys).get(k) == m.get(k),
    decreases keys.len(),
{
    if keys.len() > 0 {
        let init = keys.drop_last();
        lemma_tombstone_at(m, init, k);
        assert(keys =~= init.push(keys.last()));
        if init.contains(k) {
            let x = choose|x: int| 0 <= x < init.len() && init[x] == k;
            assert(keys[x] == k);
        }
        if keys.contains(k) && k != keys.last() {
            let x = choose|x: int| 0 <= x < keys.len() && keys[x] == k;
            assert(init[x] == k);
        }
        assert(keys[keys.len() - 1] == keys.last());
    }
}

/// Where an item was put, the map holds the last such item, live; elsewhere
/// it is unchanged.
pub proof fn lemma_put_all_at(
    m: Map<u64, Option<ContractModel>>,
    items: Seq<(u64, ContractModel)>,
    k: u64,
)
    ensures
        put_all(m, items).contains_key(k) == (m.contains_key(k) || items_map(items).contains_key(
            k,
        )),
        items_map(items).contains_key(k) ==> put_all(m, items)[k] == Some(items_map(items)[k]),
        !items_map(items).contains_key(k) ==> put_all(m, items).get(k) == m.get(k),
    decreases items.len(),
{
    if items.len() > 0 {
        lemma_put_all_at(m, items.drop_last(), k);
    }
}

/// A lookup right after `insert` gives back the contract that was inserted,
/// whatever the base snapshot holds.
pub proof fn lemma_lookup_after_insert(
    mem: Map<u64, Option<ContractModel>>,
    key: u64,
    c: ContractModel,
    base: Option<ContractModel>,
)
    ensures
        resolve(mem.insert(key, Some(c)), key, base) == Some(c),
{
}

/// After a file is re-indexed, a lookup of a key that the new contracts
/// carry gives the last of them with that key; a key that the file produced
/// before and no longer does is gone, whatever the base snapshot holds; any
/// other key reads as it did.
pub proof fn lemma_lookup_after_update(
    mem: Map<u64, Option<ContractModel>>,
    stale: Seq<u64>,
    items: Seq<(u64, ContractModel)>,
    key: u64,
    base: Option<ContractModel>,
)
    ensures
        items_map(items).contains_key(key) ==> resolve(
            put_all(tombstone(mem, stale), items),
            key,
            base,
        ) == Some(items_map(items)[key]),
        !items_map(items).contains_key(key) && stale.contains(key) ==> resolve(
            put_all(tombstone(mem, stale), items),
            key,
            base,
        ) is None,
        !items_map(items).contains_key(key) && !stale.contains(key) ==> resolve(
            put_all(tombstone(mem, stale), items),
            key,
            base,
        ) == resolve(mem, key, base),
{
    lemma_tombstone_at(mem, stale, key);
    lemma_put_all_at(tombstone(mem, stale), items, key);
}

/// After a file is removed, none of the keys it produced can be looked up,
/// whatever the base snapshot holds; other keys read as they did.
pub proof fn lemma_lookup_after_remove(
    mem: Map<u64, Option<ContractModel>>,
    stale: Seq<u64>,
    key: u64,
    base: Option<ContractModel>,
)
    ensures
        stale.contains(key) ==> resolve(tombstone(mem, stale), key, base) is None,
        !stale.contains(key) ==> resolve(tombstone(mem, stale), key, base) == resolve(
            mem,
            key,
            base,
        ),
{
    lemma_tombstone_at(mem, stale, key);
}

/// What re-indexing a file does to the count of contracts: the live keys
/// afterwards are those live before, less the keys the file produced
/// before, plus the keys of the new contracts.
pub proof fn lemma_live_after_update(
    base_keys: Set<u64>,
    mem: Map<u64, Option<ContractModel>>,
    stale: Seq<u64>,
    items: Seq<(u64, ContractModel)>,
)
    ensures
        live_keys(base_keys, put_all(tombstone(mem, stale), items)) == live_keys(base_keys, mem).difference(
            stale.to_set(),
        ).union(items_map(items).dom()),
{
    let after = put_all(tombstone(mem, stale), items);
    assert forall|k: u64| #[trigger] live_keys(base_keys, after).contains(k) == live_keys(base_keys, mem).difference(
        stale.to_set(),
    ).union(items_map(items).dom()).contains(k) by {
        lemma_tombstone_at(mem, stale, k);
        lemma_put_all_at(tombstone(mem, stale), items, k);
        assert(stale.to_set().contains(k) == stale.contains(k));
    }
    assert(live_keys(base_keys, after) =~= live_keys(base_keys, mem).difference(stale.to_set()).union(
        items_map(items).dom(),
    ));
}

/// What removing a file does to the count of contracts: the live keys
/// afterwards are those live before, less the keys the file produced.
pub proof fn lemma_live_after_remove(
    base_keys: Set<u64>,
    mem: Map<u64, Option<ContractModel>>,
    stale: Seq<u64>,
)
    ensures
        live_keys(base_keys, tombstone(mem, stale)) == live_keys(base_keys, mem).difference(stale.to_set()),
{
    assert forall|k: u64| #[trigger] live_keys(base_keys, tombstone(mem, stale)).contains(k) == live_keys(
        base_keys,
        mem,
    ).difference(stale.to_set()).contains(k) by {
        lemma_tombstone_at(mem, stale, k);
        assert(stale.to_set().contains(k) == stale.contains(k));
    }
    assert(live_keys(base_keys, tombstone(mem, stale)) =~= live_keys(base_keys, mem).difference(
        stale.to_set(),
    ));
}

/// Compaction changes no lookup: with the mem table emptied and the merged
/// table as the new base, every key reads as it did before.
pub proof fn lemma_compaction_preserves_lookups(
    base: Map<u64, ContractModel>,
    mem: Map<u64, Option<ContractModel>>,
    key: u64,
)
    ensures
        resolve(Map::empty(), key, merged(base, mem).get(key)) == resolve(mem, key, base.get(key)),
{
}

/// The number of contracts counted before compaction is the number of
/// contracts compaction keeps.
pub proof fn lemma_total_is_merged_size(
    base: Map<u64, ContractModel>,
    mem: Map<u64, Option<ContractModel>>,
)
    ensures
        live_keys(base.dom(), mem) == merged(base, mem).dom(),
{
    assert(live_keys(base.dom(), mem) =~= merged(base, mem).dom());
}

/// The keys a map of keyed contracts has are the keys of its items.
proof fn lemma_items_map_dom(items: Seq<(u64, ContractModel)>)
    ensures
        items_map(items).dom() == items.map_values(|p: (u64, ContractModel)| p.0).to_set(),
    decreases items.len(),
{
    let ks = items.map_values(|p: (u64, ContractModel)| p.0);
    if items.len() > 0 {
        let rest = items.drop_last();
        lemma_items_map_dom(rest);
        let kr = rest.map_values(|p: (u64, ContractModel)| p.0);
        assert(ks =~= kr.push(items.last().0));
        assert(ks.to_set() =~= kr.to_set().insert(items.last().0)) by {
            assert forall|k: u64| #[trigger] ks.to_set().contains(k) <==> kr.to_set().insert(
                items.last().0,
            ).contains(k) by {
                if ks.contains(k) && k != items.last().0 {
                    let i = choose|i: int| 0 <= i < ks.len() && ks[i] == k;
                    assert(kr[i] == k);
                }
                if kr.contains(k) {
                    let i = choose|i: int| 0 <= i < kr.len() && kr[i] == k;
                    assert(ks[i] == k);
                }
                if k == items.last().0 {
                    assert(ks[ks.len() - 1] == k);
                }
            }
        }
    } else {
        assert(ks.to_set() =~= Set::<u64>::empty());
        assert(items_map(items).dom() =~= Set::<u64>::empty());
    }
}

/// Compaction keeps as many contracts as were counted before it: counted
/// over the base snapshot's own keys, the live contracts are exactly as many
/// as the keyed contracts that `compact` returns (no key twice, mapping to
/// the merged table).
pub proof fn lemma_compaction_count(
    base: Seq<(u64, ContractModel)>,
    base_keys: Seq<u64>,
    mem: Map<u64, Option<ContractModel>>,
    out: Seq<(u64, ContractModel)>,
)
    requires
        base_keys.to_set() == items_map(base).dom(),
        out.map_values(|p: (u64, ContractModel)| p.0).no_duplicates(),
        items_map(out) == merged(items_map(base), mem),
    ensures
        live_keys(base_keys.to_set(), mem).len() == out.len(),
{
    lemma_total_is_merged_size(items_map(base), mem);
    lemma_items_map_dom(out);
    let ks = out.map_values(|p: (u64, ContractModel)| p.0);
    ks.unique_seq_to_set();
}

/// The in-memory tier of the engram store, with the index of which keys each
/// source file produced.
pub struct IncrementalEngramStore {
    mem_table: HashMap<u64, MemoryEntry>,
    mem_keys: Vec<u64>,
    file_to_symbols: Vec<(String, Vec<u64>)>,
}

impl IncrementalEngramStore {
    /// The mem table: by key, a live contract (`Some`) or a tombstone (`None`).
    pub closed spec fn deltas(&self) -> Map<u64, Option<ContractModel>> {
        self.mem_table@.map_values(|e: MemoryEntry| e@)
    }

    /// The keys each known file produced when it was last indexed.
    pub closed spec fn file_index(&self) -> Map<Seq<char>, Seq<u64>> {
        index_of(self.file_to_symbols@)
    }

    /// The keys of the mem table, in the order they first entered it.
    pub closed spec fn key_order(&self) -> Seq<u64> {
        self.mem_keys@
    }

    /// The store's invariant: `mem_keys` lists each key of the mem table
    /// once, and no file is listed twice.
    pub closed spec fn wf(&self) -> bool {
        &&& self.mem_keys@.no_duplicates()
        &&& forall|k: u64| #[trigger]
            self.mem_table@.contains_key(k) <==> self.mem_keys@.contains(k)
        &&& unique_paths(self.file_to_symbols@)
    }

    /// An empty store.
    pub fn new() -> (s: Self)
        ensures
            s.wf(),
            s.deltas() == Map::<u64, Option<ContractModel>>::empty(),
            s.file_index() == Map::<Seq<char>, Seq<u64>>::empty(),
    {
        let s = IncrementalEngramStore {
            mem_table: HashMap::new(),
            mem_keys: Vec::new(),
            file_to_symbols: Vec::new(),
        };
        assert(s.deltas() =~= Map::<u64, Option<ContractModel>>::empty());
        assert(s.file_index() =~= Map::<Seq<char>, Seq<u64>>::empty());
        s
    }

    /// Records `entry` for `key` in the mem table.
    fn put(&mut self, key: u64, entry: MemoryEntry)
        requires
            old(self).wf(),
        ensures
            final(self).wf(),
            final(self).deltas() == old(self).deltas().insert(key, entry@),
            final(self).file_to_symbols == old(self).file_to_symbols,
    {
        let ghost e = entry@;
        let fresh = !self.mem_table.contains_key(&key);
        if fresh {
            self.mem_keys.push(key);
        }
        self.mem_table.insert(key, entry);
        proof {
            assert(self.deltas() =~= old(self).deltas().insert(key, e));
            assert forall|k: u64| #[trigger]
                self.mem_table@.contains_key(k) <==> self.mem_keys@.contains(k) by {
                if fresh {
                    assert(self.mem_keys@ == old(self).mem_keys@.push(key));
                    if old(self).mem_keys@.contains(k) {
                        let i = choose|i: int|
                            0 <= i < old(self).mem_keys@.len() && old(self).mem_keys@[i] == k;
                        assert(self.mem_keys@[i] == k);
                    }
                    if self.mem_keys@.contains(k) && k != key {
                        let i = choose|i: int|
                            0 <= i < self.mem_keys@.len() && self.mem_keys@[i] == k;
                        assert(old(self).mem_keys@[i] == k);
                    }
                    assert(self.mem_keys@[self.mem_keys@.len() - 1] == key);
                }
            }
            if fresh {
                assert forall|i: int, j: int|
                    0 <= i < j < self.mem_keys@.len() implies self.mem_keys@[i]
                    != self.mem_keys@[j] by {
                    if j == self.mem_keys@.len() - 1 {
                        assert(old(self).mem_keys@.contains(self.mem_keys@[i]));
                    }
                }
            }
        }
    }

    /// The contract stored for `key`: the mem table's entry when it has one
    /// (`None` for a tombstone), else what the base snapshot held for it
    /// (`base`).
    pub fn lookup(&self, key: u64, base: Option<EngramContract>) -> (r: Option<EngramContract>)
        ensures
            opt_model(r) == resolve(self.deltas(), key, opt_model(base)),
    {
        match self.mem_table.get(&key) {
            Some(entry) => match entry {
                MemoryEntry::Active(c) => Some(c.copy()),
                MemoryEntry::Deleted => None,
            },
            None => base,
        }
    }

    /// Where `file` stands in the file index, if it is there.
    fn find_file(&self, file: &str) -> (r: Option<usize>)
        ensures
            match r {
                Some(i) => i < self.file_to_symbols@.len() && self.file_to_symbols@[i as int].0@
                    == file@,
                None => forall|i: int|
                    0 <= i < self.file_to_symbols@.len() ==> #[trigger] self.file_to_symbols@[i].0@
                        != file@,
            },
    {
        let mut i: usize = 0;
        while i < self.file_to_symbols.len()
            invariant
                i <= self.file_to_symbols@.len(),
                forall|j: int| 0 <= j < i ==> #[trigger] self.file_to_symbols@[j].0@ != file@,
            decreases self.file_to_symbols@.len() - i,
        {
            if str_eq(self.file_to_symbols[i].0.as_str(), file) {
                return Some(i);
            }
            i += 1;
        }
        None
    }

    /// Puts a tombstone at each of `keys`.
    fn bury(&mut self, keys: &Vec<u64>)
        requires
            old(self).wf(),
        ensures
            final(self).wf(),
            final(self).deltas() == tombstone(old(self).deltas(), keys@),
            final(self).file_to_symbols == old(self).file_to_symbols,
    {
        let mut j: usize = 0;
        while j < keys.len()
            invariant
                j <= keys@.len(),
                self.wf(),
                self.deltas() == tombstone(old(self).deltas(), keys@.take(j as int)),
                self.file_to_symbols == old(self).file_to_symbols,
            decreases keys@.len() - j,
        {
            self.put(keys[j], MemoryEntry::Deleted);
            assert(keys@.take(j + 1).drop_last() =~= keys@.take(j as int));
            j += 1;
        }
        assert(keys@.take(keys@.len() as int) =~= keys@);
    }

    /// Re-indexes a modified file: tombstones for the keys it produced before,
    /// then each of `new_contracts` live, and the file's keys become those of
    /// `new_contracts`.
    pub fn update_file_incremental(
        &mut self,
        file_path: &str,
        new_contracts: Vec<(u64, EngramContract)>,
    )
        requires
            old(self).wf(),
        ensures
            final(self).wf(),
            final(self).deltas() == put_all(
                tombstone(old(self).deltas(), keys_of_file(old(self).file_index(), file_path@)),
                item_models(new_contracts@),
            ),
            final(self).file_index() == old(self).file_index().insert(
                file_path@,
                item_keys(new_contracts@),
            ),
    {
        let found = self.find_file(file_path);
        let ghost stale = keys_of_file(old(self).file_index(), file_path@);
        match found {
            Some(i) => {
                let olds = self.file_to_symbols[i].1.clone();
                proof {
                    assert(olds@ =~= self.file_to_symbols@[i as int].1@);
                    lemma_index_entry(self.file_to_symbols@, i as int);
                }
                self.bury(&olds);
            },
            None => {
                proof {
                    lemma_index_absent(self.file_to_symbols@, file_path@);
                    assert(tombstone(old(self).deltas(), stale) == old(self).deltas());
                }
            },
        }
        let ghost tomb = self.deltas();
        let mut hashes: Vec<u64> = Vec::new();
        let mut j: usize = 0;
        while j < new_contracts.len()
            invariant
                j <= new_contracts@.len(),
                self.wf(),
                self.deltas() == put_all(tomb, item_models(new_contracts@).take(j as int)),
                hashes@ == item_keys(new_contracts@).take(j as int),
                self.file_to_symbols == old(self).file_to_symbols,
            decreases new_contracts@.len() - j,
        {
            let key = new_contracts[j].0;
            let c = new_contracts[j].1.copy();
            self.put(key, MemoryEntry::Active(c));
            hashes.push(key);
            proof {
                let ms = item_models(new_contracts@);
                assert(ms.take(j + 1).drop_last() =~= ms.take(j as int));
                assert(item_keys(new_contracts@).take(j + 1) =~= item_keys(new_contracts@).take(
                    j as int,
                ).push(key));
            }
            j += 1;
        }
        proof {
            assert(item_models(new_contracts@).take(new_contracts@.len() as int) =~= item_models(
                new_contracts@,
            ));
            assert(item_keys(new_contracts@).take(new_contracts@.len() as int) =~= item_keys(
                new_contracts@,
            ));
        }
        let entry = (file_path.to_owned(), hashes);
        match found {
            Some(i) => {
                proof {
                    lemma_index_set(self.file_to_symbols@, i as int, entry);
                }
                self.file_to_symbols.set(i, entry);
            },
            None => {
                proof {
                    lemma_index_push(self.file_to_symbols@, entry);
                }
                self.file_to_symbols.push(entry);
            },
        }
    }

    /// Forgets a deleted file: tombstones for the keys it produced, and the
    /// file leaves the index.
    pub fn remove_file_incremental(&mut self, file_path: &str)
        requires
            old(self).wf(),
        ensures
            final(self).wf(),
            final(self).deltas() == tombstone(
                old(self).deltas(),
                keys_of_file(old(self).file_index(), file_path@),
            ),
            final(self).file_index() == old(self).file_index().remove(file_path@),
    {
        match self.find_file(file_path) {
            Some(i) => {
                proof {
                    lemma_index_entry(self.file_to_symbols@, i as int);
                    lemma_index_remove(self.file_to_symbols@, i as int);
                }
                let (_, olds) = self.file_to_symbols.remove(i);
                self.bury(&olds);
            },
            None => {
                proof {
                    lemma_index_absent(self.file_to_symbols@, file_path@);
                    assert(old(self).file_index().remove(file_path@) =~= old(self).file_index());
                }
            },
        }
    }

    /// Folds the mem table into the base snapshot `base`: the result holds,
    /// once each, the keys that a lookup finds a contract for, with that
    /// contract. The mem table is emptied; the file index stays.
    pub fn compact(&mut self, base: &Vec<(u64, EngramContract)>) -> (r: Vec<(u64, EngramContract)>)
        requires
            old(self).wf(),
        ensures
            final(self).wf(),
            final(self).deltas() == Map::<u64, Option<ContractModel>>::empty(),
            final(self).file_index() == old(self).file_index(),
            item_keys(r@).no_duplicates(),
            items_map(item_models(r@)) == merged(
                items_map(item_models(base@)),
                old(self).deltas(),
            ),
    {
        let ghost models = item_models(base@);
        let ghost bmap = items_map(models);
        let ghost mem = self.deltas();
        // The last position of each key in `base`, and the keys in first-seen order.
        let mut table: HashMap<u64, usize> = HashMap::new();
        let mut order: Vec<u64> = Vec::new();
        let mut i: usize = 0;
        while i < base.len()
            invariant
                i <= base@.len(),
                models == item_models(base@),
                order@.no_duplicates(),
                forall|k: u64| #[trigger] table@.contains_key(k) <==> order@.contains(k),
                forall|k: u64| #[trigger]
                    table@.contains_key(k) <==> items_map(models.take(i as int)).contains_key(k),
                forall|k: u64| #[trigger]
                    table@.contains_key(k) ==> table@[k] < i && items_map(
                        models.take(i as int),
                    )[k] == models[table@[k] as int].1,
            decreases base@.len() - i,
        {
            let k = base[i].0;
            proof {
                assert(models.take(i + 1).drop_last() =~= models.take(i as int));
                assert(models.take(i + 1).last() == models[i as int]);
            }
            if !table.contains_key(&k) {
                proof {
                    assert forall|a: int, b: int|
                        0 <= a < b < order@.push(k).len() implies order@.push(k)[a] != order@.push(
                            k,
                        )[b] by {
                        if b == order@.len() {
                            assert(order@.contains(order@[a]));
                        }
                    }
                    assert forall|q: u64| #[trigger]
                        order@.push(k).contains(q) <==> (order@.contains(q) || q == k) by {
                        if order@.contains(q) {
                            let x = choose|x: int| 0 <= x < order@.len() && order@[x] == q;
                            assert(order@.push(k)[x] == q);
                        }
                        if order@.push(k).contains(q) && q != k {
                            let x = choose|x: int|
                                0 <= x < order@.push(k).len() && order@.push(k)[x] == q;
                            assert(order@[x] == q);
                        }
                        assert(order@.push(k)[order@.len() as int] == k);
                    }
                }
                order.push(k);
            }
            table.insert(k, i);
            i += 1;
        }
        proof {
            assert(models.take(base@.len() as int) =~= models);
        }
        // Base contracts that the mem table leaves alone.
        let mut out: Vec<(u64, EngramContract)> = Vec::new();
        let ghost mut gm: Map<u64, ContractModel> = Map::empty();
        let mut j: usize = 0;
        while j < order.len()
            invariant
                j <= order@.len(),
                models == item_models(base@),
                bmap == items_map(models),
                mem == self.deltas(),
                self.wf(),
                order@.no_duplicates(),
                forall|k: u64| #[trigger] table@.contains_key(k) <==> order@.contains(k),
                forall|k: u64| #[trigger] table@.contains_key(k) <==> bmap.contains_key(k),
                forall|k: u64| #[trigger]
                    table@.contains_key(k) ==> table@[k] < base@.len() && bmap[k] == models[table@[k] as int].1,
                items_map(item_models(out@)) == gm,
                item_keys(out@).no_duplicates(),
                forall|x: int| 0 <= x < out@.len() ==> gm.contains_key(#[trigger] out@[x].0),
                forall|k: u64| #[trigger]
                    gm.contains_key(k) <==> (order@.take(j as int).contains(k)
                        && !mem.contains_key(k)),
                forall|k: u64| #[trigger] gm.contains_key(k) ==> gm[k] == bmap[k],
            decreases order@.len() - j,
        {
            let k = order[j];
            proof {
                assert(order@.take(j + 1) =~= order@.take(j as int).push(k));
                assert forall|q: u64| #[trigger]
                    order@.take(j + 1).contains(q) <==> (order@.take(j as int).contains(q) || q == k) by {
                    if order@.take(j as int).contains(q) {
                        let x = choose|x: int| 0 <= x < j && order@.take(j as int)[x] == q;
                        assert(order@.take(j + 1)[x] == q);
                    }
                    let nxt = order@.take(j + 1);
                    if nxt.contains(q) && q != k {
                        let x = choose|x: int| 0 <= x < nxt.len() && nxt[x] == q;
                        assert(order@.take(j as int)[x] == q);
                    }
                    assert(order@.take(j + 1)[j as int] == k);
                }
                if order@.take(j as int).contains(k) {
                    let x = choose|x: int| 0 <= x < j && order@.take(j as int)[x] == k;
                    assert(order@[x] == order@[j as int]);
                }
            }
            if !self.mem_table.contains_key(&k) {
                let at = *table.get(&k).unwrap();
                let c = base[at].1.copy();
                proof {
                    assert(table@.contains_key(k));
                    assert(!gm.contains_key(k));
                    let ks = item_keys(out@);
                    assert(item_keys(out@.push((k, c))) =~= ks.push(k));
                    assert(item_models(out@.push((k, c))) =~= item_models(out@).push((k, c@)));
                    assert(item_models(out@.push((k, c))).drop_last() =~= item_models(out@));
                    assert forall|a: int, b: int|
                        0 <= a < b < ks.push(k).len() implies ks.push(k)[a] != ks.push(k)[b] by {
                        if b == ks.len() {
                            assert(gm.contains_key(out@[a].0));
                        }
                    }
                    gm = gm.insert(k, c@);
                }
                out.push((k, c));
            }
            j += 1;
        }
        proof {
            assert(order@.take(order@.len() as int) =~= order@);
        }
        // Live contracts of the mem table.
        let mut m: usize = 0;
        while m < self.mem_keys.len()
            invariant
                m <= self.mem_keys@.len(),
                bmap == items_map(models),
                mem == self.deltas(),
                self.wf(),
                forall|k: u64| #[trigger] table@.contains_key(k) <==> order@.contains(k),
                forall|k: u64| #[trigger] table@.contains_key(k) <==> bmap.contains_key(k),
                items_map(item_models(out@)) == gm,
                item_keys(out@).no_duplicates(),
                forall|x: int| 0 <= x < out@.len() ==> gm.contains_key(#[trigger] out@[x].0),
                forall|k: u64| #[trigger]
                    gm.contains_key(k) <==> ((order@.contains(k) && !mem.contains_key(k)) || (
                    self.mem_keys@.take(m as int).contains(k) && mem[k] is Some)),
                forall|k: u64| #[trigger]
                    gm.contains_key(k) ==> gm[k] == (if mem.contains_key(k) {
                        mem[k]->0
                    } else {
                        bmap[k]
                    }),
            decreases self.mem_keys@.len() - m,
        {
            let k = self.mem_keys[m];
            proof {
                let mk = self.mem_keys@;
                assert(mk.take(m + 1) =~= mk.take(m as int).push(k));
                assert forall|q: u64| #[trigger]
                    mk.take(m + 1).contains(q) <==> (mk.take(m as int).contains(q) || q == k) by {
                    if mk.take(m as int).contains(q) {
                        let x = choose|x: int| 0 <= x < m && mk.take(m as int)[x] == q;
                        assert(mk.take(m + 1)[x] == q);
                    }
                    let nxt = mk.take(m + 1);
                    if nxt.contains(q) && q != k {
                        let x = choose|x: int| 0 <= x < nxt.len() && nxt[x] == q;
                        assert(mk.take(m as int)[x] == q);
                    }
                    assert(mk.take(m + 1)[m as int] == k);
                }
                if mk.take(m as int).contains(k) {
                    let x = choose|x: int| 0 <= x < m && mk.take(m as int)[x] == k;
                    assert(mk[x] == mk[m as int]);
                }
                assert(mk.contains(k));
                assert(self.mem_table@.contains_key(k));
            }
            match self.mem_table.get(&k) {
                Some(MemoryEntry::Active(c0)) => {
                    let c = c0.copy();
                    proof {
                        assert(mem[k] == Some(c@));
                        assert(!gm.contains_key(k));
                        let ks = item_keys(out@);
                        assert(item_keys(out@.push((k, c))) =~= ks.push(k));
                        assert(item_models(out@.push((k, c))) =~= item_models(out@).push((k, c@)));
                        assert(item_models(out@.push((k, c))).drop_last() =~= item_models(out@));
                        assert forall|a: int, b: int|
                            0 <= a < b < ks.push(k).len() implies ks.push(k)[a] != ks.push(k)[b] by {
                            if b == ks.len() {
                                assert(gm.contains_key(out@[a].0));
                            }
                        }
                        gm = gm.insert(k, c@);
                    }
                    out.push((k, c));
                },
                _ => {
                    proof {
                        assert(mem[k] is None);
                    }
                },
            }
            m += 1;
        }
        proof {
            assert(self.mem_keys@.take(self.mem_keys@.len() as int) =~= self.mem_keys@);
            let target = merged(bmap, mem);
            assert forall|k: u64| #[trigger] gm.contains_key(k) <==> target.contains_key(k) by {
                assert(self.mem_keys@.take(m as int) == self.mem_keys@);
                assert(mem.contains_key(k) == self.mem_table@.contains_key(k));
                if mem.contains_key(k) {
                    assert(self.mem_keys@.contains(k));
                    assert(resolve(mem, k, bmap.get(k)) == mem[k]);
                } else {
                    assert(!self.mem_keys@.contains(k));
                    assert(table@.contains_key(k) == order@.contains(k));
                    assert(table@.contains_key(k) == bmap.contains_key(k));
                    assert(bmap.get(k) == (if bmap.contains_key(k) { Some(bmap[k]) } else { None }));
                    assert(resolve(mem, k, bmap.get(k)) == bmap.get(k));
                }
            }
            assert(gm =~= target);
        }
        self.mem_table.clear();
        self.mem_keys.clear();
        proof {
            assert(self.deltas() =~= Map::<u64, Option<ContractModel>>::empty());
        }
        out
    }

    /// How many keys a lookup finds a contract for, given the keys of the base
    /// snapshot.
    pub fn total_contracts(&self, base_keys: &Vec<u64>) -> (r: usize)
        requires
            self.wf(),
        ensures
            r == live_keys(base_keys@.to_set(), self.deltas()).len(),
    {
        let ghost mem = self.deltas();
        let mut seen: HashSet<u64> = HashSet::new();
        let mut live: Vec<u64> = Vec::new();
        let mut i: usize = 0;
        while i < base_keys.len()
            invariant
                i <= base_keys@.len(),
                mem == self.deltas(),
                forall|k: u64| #[trigger] seen@.contains(k) <==> base_keys@.take(i as int).contains(k),
                live@.no_duplicates(),
                forall|k: u64| #[trigger]
                    live@.contains(k) <==> (base_keys@.take(i as int).contains(k)
                        && !mem.contains_key(k)),
            decreases base_keys@.len() - i,
        {
            let k = base_keys[i];
            proof {
                lemma_take_next(base_keys@, i as int);
            }
            if !seen.contains(&k) {
                seen.insert(k);
                if !self.mem_table.contains_key(&k) {
                    proof {
                        lemma_push_fresh(live@, k);
                    }
                    live.push(k);
                }
            }
            i += 1;
        }
        proof {
            assert(base_keys@.take(i as int) =~= base_keys@);
        }
        let mut m: usize = 0;
        while m < self.mem_keys.len()
            invariant
                m <= self.mem_keys@.len(),
                mem == self.deltas(),
                self.wf(),
                live@.no_duplicates(),
                forall|k: u64| #[trigger]
                    live@.contains(k) <==> ((base_keys@.contains(k) && !mem.contains_key(k)) || (
                    self.mem_keys@.take(m as int).contains(k) && mem[k] is Some)),
            decreases self.mem_keys@.len() - m,
        {
            let k = self.mem_keys[m];
            proof {
                lemma_take_next(self.mem_keys@, m as int);
                assert(self.mem_keys@.contains(k));
            }
            match self.mem_table.get(&k) {
                Some(MemoryEntry::Active(_)) => {
                    proof {
                        lemma_push_fresh(live@, k);
                    }
                    live.push(k);
                },
                _ => {},
            }
            m += 1;
        }
        proof {
            assert(self.mem_keys@.take(m as int) =~= self.mem_keys@);
            let target = live_keys(base_keys@.to_set(), mem);
            assert forall|k: u64| #[trigger] live@.to_set().contains(k) <==> target.contains(k) by {
                assert(mem.contains_key(k) == self.mem_table@.contains_key(k));
                assert(base_keys@.to_set().contains(k) == base_keys@.contains(k));
            }
            assert(live@.to_set() =~= target);
            live@.unique_seq_to_set();
        }
        live.len()
    }

    /// Contracts called `name` or whose symbol path ends in `::name`: first
    /// the live ones of the mem table (in the order their keys entered it),
    /// then those of the base snapshot `base` whose key the mem table does
    /// not hold.
    pub fn lookup_by_name(&self, name: &str, base: &Vec<(u64, EngramContract)>) -> (r: Vec<
        EngramContract,
    >)
        requires
            self.wf(),
        ensures
            models(r@) == matching_live(self.key_order(), self.deltas(), name@) + matching_base(
                item_models(base@),
                self.deltas(),
                name@,
            ),
    {
        let ghost mem = self.deltas();
        let mut suffix: Vec<char> = Vec::new();
        suffix.push(':');
        suffix.push(':');
        let nv = chars_of(name);
        let mut t: usize = 0;
        while t < nv.len()
            invariant
                t <= nv@.len(),
                suffix@ == seq![':', ':'] + nv@.take(t as int),
            decreases nv@.len() - t,
        {
            suffix.push(nv[t]);
            assert(nv@.take(t + 1) =~= nv@.take(t as int).push(nv@[t as int]));
            t += 1;
        }
        assert(nv@.take(t as int) =~= name@);
        let mut results: Vec<EngramContract> = Vec::new();
        let mut m: usize = 0;
        while m < self.mem_keys.len()
            invariant
                m <= self.mem_keys@.len(),
                mem == self.deltas(),
                suffix@ == seq![':', ':'] + name@,
                models(results@) == matching_live(self.mem_keys@.take(m as int), mem, name@),
            decreases self.mem_keys@.len() - m,
        {
            let k = self.mem_keys[m];
            proof {
                assert(self.mem_keys@.take(m + 1).drop_last() =~= self.mem_keys@.take(m as int));
            }
            match self.mem_table.get(&k) {
                Some(MemoryEntry::Active(c)) => {
                    if contract_matches(c, name, &suffix) {
                        let cc = c.copy();
                        proof {
                            assert(models(results@.push(cc)) =~= models(results@).push(cc@));
                        }
                        results.push(cc);
                    }
                },
                _ => {},
            }
            m += 1;
        }
        proof {
            assert(self.mem_keys@.take(m as int) =~= self.mem_keys@);
        }
        let ghost live_part = models(results@);
        let ghost bm = item_models(base@);
        let mut b: usize = 0;
        while b < base.len()
            invariant
                b <= base@.len(),
                mem == self.deltas(),
                bm == item_models(base@),
                suffix@ == seq![':', ':'] + name@,
                models(results@) == live_part + matching_base(bm.take(b as int), mem, name@),
            decreases base@.len() - b,
        {
            let k = base[b].0;
            proof {
                assert(bm.take(b + 1).drop_last() =~= bm.take(b as int));
                assert(bm.take(b + 1).last() == (k, base@[b as int].1@));
            }
            if !self.mem_table.contains_key(&k) && contract_matches(&base[b].1, name, &suffix) {
                let cc = base[b].1.copy();
                proof {
                    assert(models(results@.push(cc)) =~= models(results@).push(cc@));
                }
                results.push(cc);
            }
            b += 1;
        }
        proof {
            assert(bm.take(b as int) =~= bm);
        }
        results
    }

    /// Makes `contract` the live contract for `key`.
    pub fn insert(&mut self, key: u64, contract: EngramContract)
        requires
            old(self).wf(),
        ensures
            final(self).wf(),
            final(self).deltas() == old(self).deltas().insert(key, Some(contract@)),
            final(self).file_index() == old(self).file_index(),
    {
        let ghost c = contract@;
        self.put(key, MemoryEntry::Active(contract));
        proof {
            assert(self.file_index() =~= old(self).file_index());
        }
    }
}

} // verus!
