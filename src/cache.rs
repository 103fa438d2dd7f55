//! The content-addressed build cache: fingerprints of a beam's commands,
//! inputs and outputs, and the rule that decides whether a beam is stale.
//!
//! Reading files and persisting the cache are left to the caller: a beam's
//! files are handed in as a snapshot that maps each readable declared path
//! to the hash of its content.

use vstd::prelude::*;

use crate::beam::{Beam, command_lines};
use crate::interpolation::{lookup};
use crate::strmap::StrMap;
use crate::text::{copy_str, str_eq, string_of};

verus! {

/// The lowercase hex BLAKE3 digest of some bytes.
pub uninterp spec fn blake3_hex(bytes: Seq<u8>) -> Seq<char>;

/// Relies on `blake3::hash` and `Hash::to_hex`: the digest of the bytes, as
/// 64 lowercase hex digits.
#[verifier::external_body]
fn blake3_digest(bytes: &[u8]) -> (r: String)
    ensures
        r@ == blake3_hex(bytes@),
        r@.len() == 64,
{
    blake3::hash(bytes).to_hex().to_string()
}

/// The hash of a file's content.
pub fn hash_content(bytes: &[u8]) -> (r: String)
    ensures
        r@ == blake3_hex(bytes@),
        r@.len() == 64,
{
    blake3_digest(bytes)
}

/// The lines joined by newlines.
pub open spec fn join_lines(lines: Seq<Seq<char>>) -> Seq<char>
    decreases lines.len(),
{
    if lines.len() == 0 {
        Seq::empty()
    } else if lines.len() == 1 {
        lines[0]
    } else {
        join_lines(lines.drop_last()) + seq!['\n'] + lines.last()
    }
}

/// The fingerprint of a beam's commands: the hash of its command lines
/// joined by newlines (of the empty string where it has no run block).
pub open spec fn command_fingerprint(b: Beam) -> Seq<char> {
    blake3_hex(vstd::utf8::encode_utf8(join_lines(b.run_lines())))
}

/// What a cache entry records.
pub struct EntryModel {
    pub beam_name: Seq<char>,
    pub input_hashes: Map<Seq<char>, Seq<char>>,
    pub output_hashes: Map<Seq<char>, Seq<char>>,
    pub command_hash: Seq<char>,
    pub timestamp: u64,
}

/// The record of a beam's last successful run.
#[derive(Clone, Debug)]
pub struct CacheEntry {
    /// The beam's name.
    pub beam_name: String,
    /// Hash of each input file, by path.
    pub input_hashes: StrMap,
    /// Hash of each output file, by path.
    pub output_hashes: StrMap,
    /// Fingerprint of the beam's commands.
    pub command_hash: String,
    /// When it was recorded, in seconds since the Unix epoch.
    pub timestamp: u64,
}

impl CacheEntry {
    pub open spec fn wf(&self) -> bool {
        self.input_hashes.wf() && self.output_hashes.wf()
    }

    pub open spec fn model(&self) -> EntryModel {
        EntryModel {
            beam_name: self.beam_name@,
            input_hashes: self.input_hashes@,
            output_hashes: self.output_hashes@,
            command_hash: self.command_hash@,
            timestamp: self.timestamp,
        }
    }
}

/// The hashes that the snapshot gives the paths, for those it holds.
pub open spec fn hashes_of(paths: Seq<Seq<char>>, snapshot: Map<Seq<char>, Seq<char>>) -> Map<
    Seq<char>,
    Seq<char>,
> {
    Map::new(|p: Seq<char>| paths.contains(p) && snapshot.contains_key(p), |p: Seq<char>| snapshot[p])
}

/// Whether each path is in the snapshot and the recorded hashes give it
/// the snapshot's hash.
pub open spec fn all_match(
    paths: Seq<Seq<char>>,
    recorded: Map<Seq<char>, Seq<char>>,
    snapshot: Map<Seq<char>, Seq<char>>,
) -> bool {
    forall|i: int|
        0 <= i < paths.len() ==> snapshot.contains_key(#[trigger] paths[i]) && recorded.contains_key(
            paths[i],
        ) && recorded[paths[i]] == snapshot[paths[i]]
}

/// The declared paths of a list.
pub open spec fn path_views(paths: Seq<String>) -> Seq<Seq<char>> {
    paths.map_values(|s: String| s@)
}

/// Whether beam `b` needs no run: an entry exists for it, its command
/// fingerprint is unchanged, and every declared input and output is in the
/// snapshot with the hash that the entry recorded.
pub open spec fn up_to_date(
    entries: Map<Seq<char>, EntryModel>,
    b: Beam,
    snapshot: Map<Seq<char>, Seq<char>>,
) -> bool {
    &&& entries.contains_key(b.name@)
    &&& entries[b.name@].command_hash == command_fingerprint(b)
    &&& all_match(path_views(b.inputs@), entries[b.name@].input_hashes, snapshot)
    &&& all_match(path_views(b.outputs@), entries[b.name@].output_hashes, snapshot)
}

/// The entry that recording `b` at `timestamp` writes.
pub open spec fn recorded_entry(b: Beam, snapshot: Map<Seq<char>, Seq<char>>, timestamp: u64) -> EntryModel {
    EntryModel {
        beam_name: b.name@,
        input_hashes: hashes_of(path_views(b.inputs@), snapshot),
        output_hashes: hashes_of(path_views(b.outputs@), snapshot),
        command_hash: command_fingerprint(b),
        timestamp,
    }
}

/// The cache: one entry for each beam that ran successfully.
pub struct BuildCache {
    cache_dir: String,
    entries: Vec<CacheEntry>,
}

impl BuildCache {
    /// The entries, by beam name.
    pub closed spec fn view(&self) -> Map<Seq<char>, EntryModel> {
        entry_map(self.entries@)
    }

    /// The directory that the cache is kept in.
    pub closed spec fn dir(&self) -> Seq<char> {
        self.cache_dir@
    }

    pub closed spec fn wf(&self) -> bool {
        &&& forall|i: int, j: int|
            0 <= i < j < self.entries@.len() ==> self.entries@[i].beam_name@ != self.entries@[j].beam_name@
        &&& forall|i: int| 0 <= i < self.entries@.len() ==> (#[trigger] self.entries@[i]).wf()
    }

    /// An empty cache kept in `cache_dir`.
    pub fn new(cache_dir: &str) -> (r: BuildCache)
        ensures
            r.wf(),
            r@ == Map::<Seq<char>, EntryModel>::empty(),
            r.dir() == cache_dir@,
    {
        let r = BuildCache { cache_dir: copy_str(cache_dir), entries: Vec::new() };
        assert(entry_map(r.entries@) =~= Map::<Seq<char>, EntryModel>::empty());
        r
    }

    /// The directory that the cache is kept in.
    pub fn cache_dir(&self) -> (r: &String)
        ensures
            r@ == self.dir(),
    {
        &self.cache_dir
    }

    /// The entries, in order.
    pub fn entries(&self) -> (r: &Vec<CacheEntry>)
        ensures
            entry_map(r@) == self@,
    {
        &self.entries
    }

    fn position(&self, name: &str) -> (r: Option<usize>)
        requires
            self.wf(),
        ensures
            match r {
                Some(i) => i < self.entries@.len() && self.entries@[i as int].beam_name@ == name@,
                None => forall|i: int| 0 <= i < self.entries@.len() ==> self.entries@[i].beam_name@ != name@,
            },
    {
        let mut i: usize = 0;
        while i < self.entries.len()
            invariant
                i <= self.entries@.len(),
                forall|j: int| 0 <= j < i ==> self.entries@[j].beam_name@ != name@,
            decreases self.entries@.len() - i,
        {
            if str_eq(self.entries[i].beam_name.as_str(), name) {
                return Some(i);
            }
            i = i + 1;
        }
        None
    }

    /// The entry of the beam named `name`.
    pub fn get(&self, name: &str) -> (r: Option<&CacheEntry>)
        requires
            self.wf(),
        ensures
            match r {
                Some(e) => self@.contains_key(name@) && self@[name@] == e.model() && e.wf(),
                None => !self@.contains_key(name@),
            },
    {
        match self.position(name) {
            Some(i) => {
                proof {
                    lemma_entry_map_at(self.entries@, i as int);
                }
                Some(&self.entries[i])
            },
            None => {
                proof {
                    lemma_entry_map_domain(self.entries@);
                }
                None
            },
        }
    }

    /// Puts `entry` in place of the entry of the same beam, or adds it.
    pub fn restore(&mut self, entry: CacheEntry)
        requires
            old(self).wf(),
            entry.wf(),
        ensures
            final(self).wf(),
            final(self)@ == old(self)@.insert(entry.beam_name@, entry.model()),
            final(self).dir() == old(self).dir(),
    {
        let ghost es = self.entries@;
        let ghost name = entry.beam_name@;
        let ghost m = entry.model();
        proof {
            lemma_entry_map_domain(es);
        }
        match self.position(entry.beam_name.as_str()) {
            Some(i) => {
                self.entries.set(i, entry);
                proof {
                    let es2 = self.entries@;
                    lemma_entry_map_domain(es2);
                    assert forall|k: Seq<char>| #[trigger] entry_map(es2).contains_key(k) <==> entry_map(es).insert(name, m).contains_key(k) by {
                        if k == name {
                            assert(es2[i as int].beam_name@ == name);
                        } else if entry_map(es).contains_key(k) {
                            let j = choose|j: int| 0 <= j < es.len() && es[j].beam_name@ == k;
                            if j != i { assert(es2[j] == es[j]); }
                        }
                        if entry_map(es2).contains_key(k) {
                            let j = choose|j: int| 0 <= j < es2.len() && es2[j].beam_name@ == k;
                            if j != i { assert(es2[j] == es[j]); }
                        }
                    }
                    assert forall|k: Seq<char>| #[trigger] entry_map(es2).contains_key(k) implies entry_map(es2)[k] == entry_map(es).insert(name, m)[k] by {
                        let j = choose|j: int| 0 <= j < es2.len() && es2[j].beam_name@ == k;
                        lemma_entry_map_at(es2, j);
                        if j != i {
                            assert(es2[j] == es[j]);
                            lemma_entry_map_at(es, j);
                        }
                    }
                    assert(entry_map(es2) =~= entry_map(es).insert(name, m));
                }
            },
            None => {
                self.entries.push(entry);
                proof {
                    assert(self.entries@.drop_last() =~= es);
                }
            },
        }
    }

    /// Whether beam `b` needs no run, given the current hashes of its files.
    pub fn is_up_to_date(&self, b: &Beam, snapshot: &StrMap) -> (r: bool)
        requires
            self.wf(),
            snapshot.wf(),
        ensures
            r == up_to_date(self@, *b, snapshot@),
    {
        let entry = match self.get(b.name.as_str()) {
            Some(e) => e,
            None => {
                return false;
            },
        };
        let fingerprint = hash_commands(b);
        if !str_eq(entry.command_hash.as_str(), fingerprint.as_str()) {
            return false;
        }
        paths_match(&b.inputs, &entry.input_hashes, snapshot) && paths_match(
            &b.outputs,
            &entry.output_hashes,
            snapshot,
        )
    }

    /// Records a successful run of `b` at `timestamp`, with the hashes of
    /// those of its files that the snapshot holds.
    pub fn record(&mut self, b: &Beam, snapshot: &StrMap, timestamp: u64)
        requires
            old(self).wf(),
            snapshot.wf(),
        ensures
            final(self).wf(),
            final(self)@ == old(self)@.insert(b.name@, recorded_entry(*b, snapshot@, timestamp)),
            final(self).dir() == old(self).dir(),
    {
        let input_hashes = select_hashes(&b.inputs, snapshot);
        let output_hashes = select_hashes(&b.outputs, snapshot);
        let entry = CacheEntry {
            beam_name: copy_str(b.name.as_str()),
            input_hashes,
            output_hashes,
            command_hash: hash_commands(b),
            timestamp,
        };
        self.restore(entry);
    }

    /// Removes every entry.
    pub fn clear(&mut self)
        ensures
            final(self).wf(),
            final(self)@ == Map::<Seq<char>, EntryModel>::empty(),
            final(self).dir() == old(self).dir(),
    {
        self.entries.clear();
        assert(entry_map(self.entries@) =~= Map::<Seq<char>, EntryModel>::empty());
    }

    /// Removes the entry of the beam named `name`.
    pub fn invalidate(&mut self, name: &str)
        requires
            old(self).wf(),
        ensures
            final(self).wf(),
            final(self)@ == old(self)@.remove(name@),
            final(self).dir() == old(self).dir(),
    {
        let ghost es = self.entries@;
        proof {
            lemma_entry_map_domain(es);
        }
        match self.position(name) {
            Some(i) => {
                let _ = self.entries.remove(i);
                proof {
                    let es2 = self.entries@;
                    assert(es2 =~= es.remove(i as int));
                    lemma_entry_map_domain(es2);
                    assert forall|k: Seq<char>| #[trigger] entry_map(es2).contains_key(k) <==> entry_map(es).remove(name@).contains_key(k) by {
                        if entry_map(es).remove(name@).contains_key(k) {
                            let j = choose|j: int| 0 <= j < es.len() && es[j].beam_name@ == k;
                            if j < i { assert(es2[j] == es[j]); } else { assert(j != i); assert(es2[j - 1] == es[j]); }
                        }
                        if entry_map(es2).contains_key(k) {
                            let j = choose|j: int| 0 <= j < es2.len() && es2[j].beam_name@ == k;
                            if j < i { assert(es2[j] == es[j]); } else { assert(es2[j] == es[j + 1]); }
                        }
                    }
                    assert forall|k: Seq<char>| #[trigger] entry_map(es2).contains_key(k) implies entry_map(es2)[k] == entry_map(es)[k] by {
                        let j = choose|j: int| 0 <= j < es2.len() && es2[j].beam_name@ == k;
                        lemma_entry_map_at(es2, j);
                        if j < i { assert(es2[j] == es[j]); lemma_entry_map_at(es, j); } else { assert(es2[j] == es[j + 1]); lemma_entry_map_at(es, j + 1); }
                    }
                    assert(entry_map(es2) =~= entry_map(es).remove(name@));
                }
            },
            None => {
                assert(entry_map(es) =~= entry_map(es).remove(name@));
            },
        }
    }
}

proof fn lemma_push_contains(s: Seq<Seq<char>>, x: Seq<char>)
    ensures
        forall|q: Seq<char>| s.push(x).contains(q) <==> (s.contains(q) || q == x),
{
    assert forall|q: Seq<char>| s.push(x).contains(q) <==> (s.contains(q) || q == x) by {
        if s.contains(q) {
            let i = choose|i: int| 0 <= i < s.len() && s[i] == q;
            assert(s.push(x)[i] == q);
        }
        if q == x {
            assert(s.push(x)[s.len() as int] == q);
        }
        if s.push(x).contains(q) {
            let i = choose|i: int| 0 <= i < s.push(x).len() && s.push(x)[i] == q;
            if i < s.len() {
                assert(s[i] == q);
            }
        }
    }
}

/// The entries of a list, by beam name (a later entry wins).
pub open spec fn entry_map(es: Seq<CacheEntry>) -> Map<Seq<char>, EntryModel>
    decreases es.len(),
{
    if es.len() == 0 {
        Map::empty()
    } else {
        entry_map(es.drop_last()).insert(es.last().beam_name@, es.last().model())
    }
}

proof fn lemma_entry_map_domain(es: Seq<CacheEntry>)
    ensures
        forall|k: Seq<char>|
            entry_map(es).contains_key(k) <==> exists|i: int| 0 <= i < es.len() && es[i].beam_name@ == k,
    decreases es.len(),
{
    if es.len() > 0 {
        let d = es.drop_last();
        lemma_entry_map_domain(d);
        assert forall|k: Seq<char>|
            entry_map(es).contains_key(k) <==> exists|i: int| 0 <= i < es.len() && es[i].beam_name@ == k by {
            if entry_map(es).contains_key(k) {
                if k != es.last().beam_name@ {
                    assert(entry_map(d).contains_key(k));
                    let i = choose|i: int| 0 <= i < d.len() && d[i].beam_name@ == k;
                    assert(es[i] == d[i]);
                } else {
                    assert(es[es.len() - 1].beam_name@ == k);
                }
            }
            if exists|i: int| 0 <= i < es.len() && es[i].beam_name@ == k {
                let i = choose|i: int| 0 <= i < es.len() && es[i].beam_name@ == k;
                if i < es.len() - 1 {
                    assert(d[i] == es[i]);
                    assert(entry_map(d).contains_key(k));
                }
            }
        }
    }
}

proof fn lemma_entry_map_at(es: Seq<CacheEntry>, i: int)
    requires
        0 <= i < es.len(),
        forall|a: int, b: int| 0 <= a < b < es.len() ==> es[a].beam_name@ != es[b].beam_name@,
    ensures
        entry_map(es).contains_key(es[i].beam_name@),
        entry_map(es)[es[i].beam_name@] == es[i].model(),
    decreases es.len(),
{
    if i < es.len() - 1 {
        let d = es.drop_last();
        assert(d[i] == es[i]);
        lemma_entry_map_at(d, i);
    }
}

/// The fingerprint of a beam's commands.
pub fn hash_commands(b: &Beam) -> (r: String)
    ensures
        r@ == command_fingerprint(*b),
{
    let mut text: Vec<char> = Vec::new();
    let ghost lines = b.run_lines();
    match &b.run {
        Some(run) => {
            let mut i: usize = 0;
            while i < run.commands.len()
                invariant
                    lines == command_lines(run.commands@),
                    i <= run.commands@.len(),
                    text@ == join_lines(lines.take(i as int)),
                decreases run.commands@.len() - i,
            {
                let ghost t0 = text@;
                if i > 0 {
                    text.push('\n');
                }
                crate::interpolation::push_all_chars(&mut text, run.commands[i].command.as_str());
                proof {
                    let l1 = lines.take(i + 1);
                    assert(l1.drop_last() =~= lines.take(i as int));
                    assert(l1.last() == run.commands@[i as int].command@);
                    if i == 0 {
                        assert(text@ =~= l1[0]);
                    } else {
                        assert(text@ =~= t0 + seq!['\n'] + l1.last());
                    }
                }
                i = i + 1;
            }
            assert(lines.take(i as int) =~= lines);
        },
        None => {},
    }
    let s = string_of(text.as_slice());
    blake3_digest(s.as_str().as_bytes())
}

/// Whether every path is in the snapshot with the recorded hash.
fn paths_match(paths: &Vec<String>, recorded: &StrMap, snapshot: &StrMap) -> (r: bool)
    requires
        recorded.wf(),
        snapshot.wf(),
    ensures
        r == all_match(path_views(paths@), recorded@, snapshot@),
{
    let mut i: usize = 0;
    while i < paths.len()
        invariant
            recorded.wf(),
            snapshot.wf(),
            i <= paths@.len(),
            forall|j: int| 0 <= j < i ==> snapshot@.contains_key(#[trigger] path_views(paths@)[j]) && recorded@.contains_key(
                path_views(paths@)[j],
            ) && recorded@[path_views(paths@)[j]] == snapshot@[path_views(paths@)[j]],
        decreases paths@.len() - i,
    {
        let p = paths[i].as_str();
        assert(path_views(paths@)[i as int] == p@);
        let current = match snapshot.get(p) {
            Some(h) => h,
            None => {
                return false;
            },
        };
        match recorded.get(p) {
            Some(h) => {
                if !str_eq(h.as_str(), current.as_str()) {
                    return false;
                }
            },
            None => {
                return false;
            },
        }
        i = i + 1;
    }
    true
}

/// The snapshot's hashes of the given paths, for those it holds.
fn select_hashes(paths: &Vec<String>, snapshot: &StrMap) -> (r: StrMap)
    requires
        snapshot.wf(),
    ensures
        r.wf(),
        r@ == hashes_of(path_views(paths@), snapshot@),
{
    let mut r = StrMap::new();
    let mut i: usize = 0;
    while i < paths.len()
        invariant
            snapshot.wf(),
            r.wf(),
            i <= paths@.len(),
            r@ == hashes_of(path_views(paths@).take(i as int), snapshot@),
        decreases paths@.len() - i,
    {
        let p = paths[i].as_str();
        let ghost pv = path_views(paths@);
        assert(pv[i as int] == p@);
        match snapshot.get(p) {
            Some(h) => {
                let ghost r0 = r@;
                let hc = copy_str(h.as_str());
                r.insert(copy_str(p), hc);
                proof {
                    assert(pv.take(i + 1) =~= pv.take(i as int).push(p@));
                    lemma_push_contains(pv.take(i as int), p@);
                    assert(snapshot@[p@] == h@);
                    assert(r@ == r0.insert(p@, h@));
                    let hm = hashes_of(pv.take(i + 1), snapshot@);
                    assert forall|q: Seq<char>| #[trigger] hm.contains_key(q) <==> r@.contains_key(q) by {
                        assert(hm.contains_key(q) <==> (pv.take(i + 1).contains(q) && snapshot@.contains_key(q)));
                        assert(r0.contains_key(q) <==> (pv.take(i as int).contains(q) && snapshot@.contains_key(q)));
                    }
                    assert forall|q: Seq<char>| #[trigger] hm.contains_key(q) implies hm[q] == r@[q] by {
                        assert(hm[q] == snapshot@[q]);
                        if q != p@ {
                            assert(r0[q] == snapshot@[q]);
                        }
                    }
                    assert(r@ =~= hm);
                }
            },
            None => {
                proof {
                    assert(pv.take(i + 1) =~= pv.take(i as int).push(p@));
                    lemma_push_contains(pv.take(i as int), p@);
                    assert(r@ =~= hashes_of(pv.take(i + 1), snapshot@));
                }
            },
        }
        i = i + 1;
    }
    assert(path_views(paths@).take(i as int) =~= path_views(paths@));
    r
}

/// Whether the snapshot holds every declared input and output of `b`.
pub open spec fn all_files_present(b: Beam, snapshot: Map<Seq<char>, Seq<char>>) -> bool {
    (forall|i: int| 0 <= i < b.inputs@.len() ==> snapshot.contains_key(#[trigger] b.inputs@[i]@)) && (
    forall|i: int| 0 <= i < b.outputs@.len() ==> snapshot.contains_key(#[trigger] b.outputs@[i]@))
}

/// After recording `b`, `b` is up to date while its files are unchanged
/// (every declared file existed when it was recorded).
pub proof fn lemma_recorded_is_up_to_date(
    entries: Map<Seq<char>, EntryModel>,
    b: Beam,
    snapshot: Map<Seq<char>, Seq<char>>,
    timestamp: u64,
)
    requires
        all_files_present(b, snapshot),
    ensures
        up_to_date(entries.insert(b.name@, recorded_entry(b, snapshot, timestamp)), b, snapshot),
{
    let e = recorded_entry(b, snapshot, timestamp);
    assert forall|i: int| 0 <= i < path_views(b.inputs@).len() implies snapshot.contains_key(
        #[trigger] path_views(b.inputs@)[i],
    ) && e.input_hashes.contains_key(path_views(b.inputs@)[i]) && e.input_hashes[path_views(b.inputs@)[i]]
        == snapshot[path_views(b.inputs@)[i]] by {
        assert(path_views(b.inputs@)[i] == b.inputs@[i]@);
        assert(path_views(b.inputs@).contains(b.inputs@[i]@));
    }
    assert forall|i: int| 0 <= i < path_views(b.outputs@).len() implies snapshot.contains_key(
        #[trigger] path_views(b.outputs@)[i],
    ) && e.output_hashes.contains_key(path_views(b.outputs@)[i]) && e.output_hashes[path_views(b.outputs@)[i]]
        == snapshot[path_views(b.outputs@)[i]] by {
        assert(path_views(b.outputs@)[i] == b.outputs@[i]@);
        assert(path_views(b.outputs@).contains(b.outputs@[i]@));
    }
}

/// After recording `b`, a declared input whose hash is no longer the one
/// recorded makes `b` stale.
pub proof fn lemma_changed_input_is_stale(
    entries: Map<Seq<char>, EntryModel>,
    b: Beam,
    snapshot: Map<Seq<char>, Seq<char>>,
    later: Map<Seq<char>, Seq<char>>,
    timestamp: u64,
    i: int,
)
    requires
        0 <= i < b.inputs@.len(),
        !(snapshot.contains_key(b.inputs@[i]@) && later.contains_key(b.inputs@[i]@)
            && later[b.inputs@[i]@] == snapshot[b.inputs@[i]@]),
    ensures
        !up_to_date(entries.insert(b.name@, recorded_entry(b, snapshot, timestamp)), b, later),
{
    assert(path_views(b.inputs@)[i] == b.inputs@[i]@);
}

/// After recording `b`, deleting a declared output makes `b` stale.
pub proof fn lemma_deleted_output_is_stale(
    entries: Map<Seq<char>, EntryModel>,
    b: Beam,
    snapshot: Map<Seq<char>, Seq<char>>,
    later: Map<Seq<char>, Seq<char>>,
    timestamp: u64,
    i: int,
)
    requires
        0 <= i < b.outputs@.len(),
        !later.contains_key(b.outputs@[i]@),
    ensures
        !up_to_date(entries.insert(b.name@, recorded_entry(b, snapshot, timestamp)), b, later),
{
    assert(path_views(b.outputs@)[i] == b.outputs@[i]@);
}

/// After recording `b`, a beam of the same name whose commands have
/// another fingerprint is stale.
pub proof fn lemma_changed_commands_are_stale(
    entries: Map<Seq<char>, EntryModel>,
    b: Beam,
    changed: Beam,
    snapshot: Map<Seq<char>, Seq<char>>,
    later: Map<Seq<char>, Seq<char>>,
    timestamp: u64,
)
    requires
        changed.name@ == b.name@,
        command_fingerprint(changed) != command_fingerprint(b),
    ensures
        !up_to_date(entries.insert(b.name@, recorded_entry(b, snapshot, timestamp)), changed, later),
{
}

/// After clearing the cache, no beam is up to date.
pub proof fn lemma_cleared_is_stale(b: Beam, snapshot: Map<Seq<char>, Seq<char>>)
    ensures
        !up_to_date(Map::<Seq<char>, EntryModel>::empty(), b, snapshot),
{
}

} // verus!
