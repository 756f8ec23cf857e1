//! The walk over a SWF's imports: which loaded files are scanned next and
//! which imports are fetched. Fetching and merging are the caller's.
use vstd::prelude::*;

use crate::pipeline::swf_imports::{collect_import_swf_paths, spec_collect_import_swf_paths, texts};
use crate::pipeline::swf_paths::{normalize_p4k_swf_path, spec_normalize_p4k_swf_path};
use crate::strs::{chars_of, string_of};

verus! {

/// The smallest SWF file, with an empty stage and one empty frame: the
/// library a canvas gets when none of its SWF candidates loads.
pub fn fallback_swf_bytes() -> (r: Vec<u8>)
    ensures
        r@ == seq![
            70u8, 87u8, 83u8, 6u8, 21u8, 0u8, 0u8, 0u8, 0u8, 24u8, 0u8,
            1u8, 0u8, 0u8, 0u8, 0u8, 0u8, 0u8, 0u8, 0u8, 0u8, 0u8,
        ],
{
    vec![
        70u8, 87u8, 83u8, 6u8, 21u8, 0u8, 0u8, 0u8, 0u8, 24u8, 0u8,
        1u8, 0u8, 0u8, 0u8, 0u8, 0u8, 0u8, 0u8, 0u8, 0u8, 0u8,
    ]
}

/// The BuildingBlocks canvas SWF, merged into every loaded library.
pub fn canvas_swf_path() -> (r: String)
    ensures
        r@ == "Data/UI/BuildingBlocks/assets/SWF/Canvas.swf"@,
{
    string_of(chars_of("Data/UI/BuildingBlocks/assets/SWF/Canvas.swf").as_slice())
}

/// The shared English font library, merged into every loaded library.
pub fn shared_fonts_path() -> (r: String)
    ensures
        r@ == "Data/UI/fonts/Shared/fonts_en.gfx"@,
{
    string_of(chars_of("Data/UI/fonts/Shared/fonts_en.gfx").as_slice())
}

/// The files loaded but not scanned yet (a stack) and the paths scanned.
pub struct SwfImportWalk {
    pending: Vec<(String, Vec<u8>)>,
    seen: Vec<String>,
}

/// Pending files as paths and bytes.
pub open spec fn pending_view(p: Seq<(String, Vec<u8>)>) -> Seq<(Seq<char>, Seq<u8>)> {
    p.map_values(|e: (String, Vec<u8>)| (e.0@, e.1@))
}

/// What scanning takes from a stack of pending files: files already seen
/// are dropped from the top, and the first unseen one is taken.
pub open spec fn next_unseen(pending: Seq<(Seq<char>, Seq<u8>)>, seen: Seq<Seq<char>>) -> (
    Option<(Seq<char>, Seq<u8>)>,
    Seq<(Seq<char>, Seq<u8>)>,
)
    decreases pending.len(),
{
    if pending.len() == 0 {
        (None, pending)
    } else if seen.contains(pending.last().0) {
        next_unseen(pending.drop_last(), seen)
    } else {
        (Some(pending.last()), pending.drop_last())
    }
}

/// The imports of a file that are not scanned yet, in order.
pub open spec fn unseen_upto(paths: Seq<Seq<char>>, seen: Seq<Seq<char>>, k: int) -> Seq<Seq<char>>
    decreases k,
{
    if k <= 0 {
        Seq::empty()
    } else {
        unseen_upto(paths, seen, k - 1) + if seen.contains(paths[k - 1]) {
            Seq::empty()
        } else {
            seq![paths[k - 1]]
        }
    }
}

fn contains_string(list: &Vec<String>, s: &str) -> (r: bool)
    ensures
        r == texts(list@).contains(s@),
{
    let ghost lv = texts(list@);
    let sc = chars_of(s);
    let mut i: usize = 0;
    while i < list.len()
        invariant
            i <= list@.len(),
            lv == texts(list@),
            sc@ == s@,
            forall|k: int| 0 <= k < i ==> lv[k] != s@,
        decreases list@.len() - i,
    {
        if crate::strs::chars_eq(chars_of(list[i].as_str()).as_slice(), sc.as_slice()) {
            assert(lv[i as int] == s@);
            return true;
        }
        i += 1;
    }
    false
}

impl SwfImportWalk {
    pub closed spec fn pending_files(&self) -> Seq<(Seq<char>, Seq<u8>)> {
        pending_view(self.pending@)
    }

    pub closed spec fn scanned(&self) -> Seq<Seq<char>> {
        texts(self.seen@)
    }

    /// A walk from the root SWF at `root_path`: the root, under its
    /// normalised path, is the only pending file.
    pub fn start(root_path: &str, root_bytes: Vec<u8>) -> (r: Self)
        ensures
            r.pending_files() == seq![(spec_normalize_p4k_swf_path(root_path@), root_bytes@)],
            r.scanned() == Seq::<Seq<char>>::empty(),
    {
        let mut pending: Vec<(String, Vec<u8>)> = Vec::new();
        let ghost b = root_bytes@;
        pending.push((normalize_p4k_swf_path(root_path), root_bytes));
        let r = SwfImportWalk { pending, seen: Vec::new() };
        assert(r.pending_files() =~= seq![(spec_normalize_p4k_swf_path(root_path@), b)]);
        assert(r.scanned() =~= Seq::<Seq<char>>::empty());
        r
    }

    /// A file was loaded (and merged): it waits to be scanned.
    pub fn push_loaded(&mut self, path: String, bytes: Vec<u8>)
        ensures
            final(self).pending_files() == old(self).pending_files().push((path@, bytes@)),
            final(self).scanned() == old(self).scanned(),
    {
        let ghost e = (path@, bytes@);
        self.pending.push((path, bytes));
        assert(self.pending_files() =~= old(self).pending_files().push(e));
    }

    /// The next file to scan: the top-most pending file not scanned yet,
    /// which becomes scanned; scanned files on top of it are dropped.
    pub fn next_scan(&mut self) -> (r: Option<(String, Vec<u8>)>)
        ensures
            ({
                let (next, rest) = next_unseen(old(self).pending_files(), old(self).scanned());
                &&& final(self).pending_files() == rest
                &&& match r {
                    Some(f) => next == Some((f.0@, f.1@)) && final(self).scanned() == old(self).scanned().push(
                        f.0@,
                    ),
                    None => next is None && final(self).scanned() == old(self).scanned(),
                }
            }),
    {
        let ghost seen0 = self.scanned();
        let ghost target = next_unseen(old(self).pending_files(), seen0);
        loop
            invariant
                self.scanned() == seen0,
                seen0 == old(self).scanned(),
                next_unseen(self.pending_files(), seen0) == target,
                target == next_unseen(old(self).pending_files(), old(self).scanned()),
            decreases self.pending@.len(),
        {
            let ghost before = self.pending_files();
            match self.pending.pop() {
                None => {
                    assert(before.len() == 0);
                    return None;
                },
                Some(entry) => {
                    assert(before.drop_last() =~= self.pending_files());
                    assert(before.last() == (entry.0@, entry.1@));
                    if !contains_string(&self.seen, entry.0.as_str()) {
                        let ghost p = entry.0@;
                        self.seen.push(entry.0.clone());
                        assert(self.scanned() =~= seen0.push(p));
                        return Some(entry);
                    }
                },
            }
        }
    }

    /// The imports of the file at `current_path` that are not scanned yet:
    /// these are fetched next.
    pub fn imports_to_fetch(&self, current_path: &str, bytes: &[u8]) -> (r: Vec<String>)
        ensures
            ({
                let all = spec_collect_import_swf_paths(current_path@, bytes@);
                texts(r@) == unseen_upto(all, self.scanned(), all.len() as int)
            }),
    {
        let all = collect_import_swf_paths(current_path, bytes);
        let ghost av = texts(all@);
        let mut out: Vec<String> = Vec::new();
        let mut i: usize = 0;
        assert(texts(out@) =~= unseen_upto(av, self.scanned(), 0));
        while i < all.len()
            invariant
                i <= all@.len(),
                av == texts(all@),
                texts(out@) == unseen_upto(av, self.scanned(), i as int),
            decreases all@.len() - i,
        {
            let ghost before = texts(out@);
            assert(av[i as int] == all@[i as int]@);
            if !contains_string(&self.seen, all[i].as_str()) {
                out.push(all[i].clone());
                assert(texts(out@) =~= before + seq![av[i as int]]);
            } else {
                assert(texts(out@) =~= before + Seq::<Seq<char>>::empty());
            }
            i += 1;
        }
        out
    }
}

/// No file is scanned twice: what a walk hands out to scan is never among
/// the files scanned before, and it joins them.
pub proof fn lemma_scan_is_fresh(pending: Seq<(Seq<char>, Seq<u8>)>, seen: Seq<Seq<char>>)
    ensures
        next_unseen(pending, seen).0 matches Some(f) ==> !seen.contains(f.0) && pending.contains(f),
        next_unseen(pending, seen).1.len() <= pending.len(),
    decreases pending.len(),
{
    if pending.len() > 0 {
        lemma_scan_is_fresh(pending.drop_last(), seen);
        if seen.contains(pending.last().0) {
            if next_unseen(pending.drop_last(), seen).0 is Some {
                let f = next_unseen(pending.drop_last(), seen).0->0;
                let i = choose|i: int| 0 <= i < pending.drop_last().len() && pending.drop_last()[i] == f;
                assert(pending[i] == f);
            }
        } else {
            assert(pending[pending.len() - 1] == pending.last());
        }
    }
}

} // verus!
