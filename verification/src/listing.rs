//! Which files of a directory are audio, and in which order they are taken.

use crate::order::{
    before, before_has_a_reason, before_is_asymmetric, before_is_irreflexive, before_is_total,
    before_is_transitive, place, strict_order_is_unique, strictly_ordered, Place,
};
use vstd::prelude::*;

verus! {

/// One entry of a directory: its file name, and whether it is a regular file.
#[derive(Debug)]
pub struct DirEntry {
    pub name: Vec<u8>,
    pub is_file: bool,
}

/// The byte `.`.
pub const DOT: u8 = 0x2e;

/// The byte `w`.
pub const SMALL_W: u8 = 0x77;

/// The byte `a`.
pub const SMALL_A: u8 = 0x61;

/// The byte `v`.
pub const SMALL_V: u8 = 0x76;

/// How far a capital letter stands below its small form.
pub const CASE_GAP: u8 = 0x20;

/// The byte is the small letter, or its capital form.
pub open spec fn is_letter(byte: u8, small: u8) -> bool {
    byte == small || byte == small - CASE_GAP
}

/// The name ends in `.wav`, in any case, and something stands before the dot.
pub open spec fn has_wav_extension(name: Seq<u8>) -> bool {
    let n = name.len() as int;
    &&& n > 4
    &&& name[n - 4] == DOT
    &&& is_letter(name[n - 3], SMALL_W)
    &&& is_letter(name[n - 2], SMALL_A)
    &&& is_letter(name[n - 1], SMALL_V)
}

impl DirEntry {
    /// A regular file with a wav extension.
    pub open spec fn is_wav(self) -> bool {
        self.is_file && has_wav_extension(self.name@)
    }

    /// Whether the entry is a regular file with the extension `wav`, in any case.
    pub fn is_wav_file(&self) -> (r: bool)
        ensures
            r == self.is_wav(),
            r <==> self.is_file && self.name@.len() >= 5 && {
                let ext = self.name@.skip(self.name@.len() - 4);
                // `.`, then `w`, `a` and `v` in either case
                &&& ext[0] == 0x2e
                &&& ext[1] == 0x77 || ext[1] == 0x57
                &&& ext[2] == 0x61 || ext[2] == 0x41
                &&& ext[3] == 0x76 || ext[3] == 0x56
            },
    {
        let n: usize = self.name.len();
        if !self.is_file || n <= 4 {
            return false;
        }
        let w: u8 = self.name[n - 3];
        let a: u8 = self.name[n - 2];
        let v: u8 = self.name[n - 1];
        self.name[n - 4] == DOT && (w == SMALL_W || w == SMALL_W - CASE_GAP) && (a == SMALL_A || a
            == SMALL_A - CASE_GAP) && (v == SMALL_V || v == SMALL_V - CASE_GAP)
    }
}

/// Entry `i` is listed before entry `j`: by name, and among equal names the
/// earlier entry first.
pub open spec fn listed_before(entries: Seq<DirEntry>, i: int, j: int) -> bool {
    before(entries[i].name@, entries[j].name@) || (entries[i].name@ == entries[j].name@ && i < j)
}

/// `list` holds the positions of exactly the wav files of `entries`, each before
/// those that are listed after it.
pub open spec fn lists_wav_files(entries: Seq<DirEntry>, list: Seq<usize>) -> bool {
    &&& forall|k: int| 0 <= k < list.len() ==> (#[trigger] list[k]) < entries.len() && entries[list[k] as int].is_wav()
    &&& forall|i: int| 0 <= i < entries.len() && (#[trigger] entries[i]).is_wav() ==> list.contains(i as usize)
    &&& forall|k: int, l: int|
        0 <= k < l < list.len() ==> listed_before(entries, #[trigger] list[k] as int, #[trigger] list[l] as int)
}

proof fn lemma_skip(entries: Seq<DirEntry>, i: int, list: Seq<usize>)
    requires
        0 <= i < entries.len() <= usize::MAX,
        lists_wav_files(entries.take(i), list),
        !entries[i].is_wav(),
    ensures
        lists_wav_files(entries.take(i + 1), list),
{
    let head = entries.take(i);
    let next = entries.take(i + 1);
    assert forall|k: int| 0 <= k < next.len() && (#[trigger] next[k]).is_wav() implies list.contains(k as usize) by {
        assert(head[k] == next[k]);
    }
    assert forall|k: int, l: int| 0 <= k < l < list.len() implies listed_before(
        next,
        #[trigger] list[k] as int,
        #[trigger] list[l] as int,
    ) by {
        assert(listed_before(head, list[k] as int, list[l] as int));
    }
}

proof fn lemma_insert(entries: Seq<DirEntry>, i: usize, list: Seq<usize>, at: int)
    requires
        i < entries.len() <= usize::MAX,
        lists_wav_files(entries.take(i as int), list),
        entries[i as int].is_wav(),
        0 <= at <= list.len(),
        at > 0 ==> !before(entries[i as int].name@, entries[list[at - 1] as int].name@),
        forall|k: int|
            at <= k < list.len() ==> before(entries[i as int].name@, entries[#[trigger] list[k] as int].name@),
    ensures
        lists_wav_files(entries.take(i + 1), list.insert(at, i)),
{
    let head = entries.take(i as int);
    let next = entries.take(i + 1);
    let longer = list.insert(at, i);
    let name = entries[i as int].name@;
    assert forall|k: int| 0 <= k < at implies listed_before(entries, #[trigger] list[k] as int, i as int) by {
        let last = list[at - 1] as int;
        before_is_total(entries[last].name@, name);
        if k < at - 1 {
            assert(listed_before(head, list[k] as int, last));
            if before(entries[list[k] as int].name@, entries[last].name@) && before(entries[last].name@, name) {
                before_is_transitive(entries[list[k] as int].name@, entries[last].name@, name);
            }
        }
    }
    assert forall|k: int| 0 <= k < longer.len() implies (#[trigger] longer[k]) < next.len()
        && next[longer[k] as int].is_wav() by {
        if k < at {
            assert(longer[k] == list[k]);
        } else if k > at {
            assert(longer[k] == list[k - 1]);
        }
    }
    assert forall|k: int| 0 <= k < next.len() && (#[trigger] next[k]).is_wav() implies longer.contains(k as usize) by {
        if k == i {
            assert(longer[at] == i);
        } else {
            assert(head[k] == next[k]);
            let m = choose|m: int| 0 <= m < list.len() && list[m] == k as usize;
            assert(longer[if m < at { m } else { m + 1 }] == k as usize);
        }
    }
    assert forall|k: int, l: int| 0 <= k < l < longer.len() implies listed_before(
        next,
        #[trigger] longer[k] as int,
        #[trigger] longer[l] as int,
    ) by {
        let k0 = if k < at { k } else { k - 1 };
        let l0 = if l < at { l } else { l - 1 };
        if k == at {
            assert(longer[l] == list[l0]);
        } else if l == at {
            assert(longer[k] == list[k0]);
            assert(listed_before(entries, list[k] as int, i as int));
        } else {
            assert(longer[k] == list[k0]);
            assert(longer[l] == list[l0]);
            assert(listed_before(head, list[k0] as int, list[l0] as int));
        }
    }
}

/// The positions of the wav files among the entries of a directory, sorted by
/// file name.
pub fn tanisa_wav(entries: &[DirEntry]) -> (list: Vec<usize>)
    ensures
        lists_wav_files(entries@, list@),
        list@.no_duplicates(),
        forall|i: int|
            0 <= i < entries@.len() ==> (list@.contains(i as usize) <==> (#[trigger] entries@[i]).is_wav()),
        forall|k: int, l: int|
            0 <= k < l < list@.len() ==> entries@[#[trigger] list@[k] as int].name@
                == entries@[#[trigger] list@[l] as int].name@ || before(
                entries@[list@[k] as int].name@,
                entries@[list@[l] as int].name@,
            ),
{
    let mut list: Vec<usize> = Vec::new();
    for i in 0..entries.len()
        invariant
            lists_wav_files(entries@.take(i as int), list@),
    {
        if entries[i].is_wav_file() {
            let mut at: usize = list.len();
            while at > 0 && place(entries[list[at - 1]].name.as_slice(), entries[i].name.as_slice())
                == Place::After
                invariant
                    at <= list.len(),
                    i < entries.len(),
                    lists_wav_files(entries@.take(i as int), list@),
                    forall|k: int|
                        at <= k < list.len() ==> before(
                            entries@[i as int].name@,
                            entries@[#[trigger] list@[k] as int].name@,
                        ),
                decreases at,
            {
                at = at - 1;
            }
            proof {
                if at > 0 {
                    let last = entries@[list@[at - 1] as int].name@;
                    if before(entries@[i as int].name@, last) {
                        before_is_asymmetric(entries@[i as int].name@, last);
                    }
                }
                lemma_insert(entries@, i, list@, at as int);
            }
            list.insert(at, i);
        } else {
            proof {
                lemma_skip(entries@, i as int, list@);
            }
        }
    }
    assert(entries@.take(entries.len() as int) =~= entries@);
    proof {
        every_wav_file_is_listed_once(entries@, list@);
        assert forall|k: int, l: int| 0 <= k < l < list@.len() implies entries@[#[trigger] list@[k] as int].name@
            == entries@[#[trigger] list@[l] as int].name@ || before(
            entries@[list@[k] as int].name@,
            entries@[list@[l] as int].name@,
        ) by {
            assert(listed_before(entries@, list@[k] as int, list@[l] as int));
        }
    }
    list
}

/// The names in a list of positions, in the order of the list.
pub open spec fn names_of(entries: Seq<DirEntry>, list: Seq<usize>) -> Seq<Seq<u8>> {
    Seq::new(list.len(), |k: int| entries[list[k] as int].name@)
}

/// No two entries share a name, as in any directory.
pub open spec fn distinct_names(entries: Seq<DirEntry>) -> bool {
    forall|i: int, j: int|
        0 <= i < j < entries.len() ==> (#[trigger] entries[i]).name@ != (#[trigger] entries[j]).name@
}

/// Some entry has this name and is a wav file.
pub open spec fn offers(entries: Seq<DirEntry>, name: Seq<u8>) -> bool {
    exists|i: int| 0 <= i < entries.len() && (#[trigger] entries[i]).is_wav() && entries[i].name@ == name
}

proof fn lemma_listed_names(entries: Seq<DirEntry>, list: Seq<usize>)
    requires
        entries.len() <= usize::MAX,
        distinct_names(entries),
        lists_wav_files(entries, list),
    ensures
        strictly_ordered(names_of(entries, list)),
        forall|name: Seq<u8>| names_of(entries, list).contains(name) <==> offers(entries, name),
{
    let names = names_of(entries, list);
    assert forall|k: int, l: int| 0 <= k < l < names.len() implies #[trigger] before(names[k], names[l]) by {
        let i = list[k] as int;
        let j = list[l] as int;
        assert(listed_before(entries, i, j));
        if i < j {
            assert(entries[i].name@ != entries[j].name@);
        }
    }
    assert forall|name: Seq<u8>| names.contains(name) <==> offers(entries, name) by {
        if names.contains(name) {
            let k = choose|k: int| 0 <= k < names.len() && names[k] == name;
            assert(entries[list[k] as int].is_wav());
        }
        if offers(entries, name) {
            let i = choose|i: int| 0 <= i < entries.len() && (#[trigger] entries[i]).is_wav() && entries[i].name@ == name;
            assert(list.contains(i as usize));
            let k = choose|k: int| 0 <= k < list.len() && list[k] == i as usize;
            assert(names[k] == name);
        }
    }
}

/// The order in which a directory hands out its entries does not matter: two
/// readings that offer the same wav files list the same names in the same order.
pub proof fn listing_ignores_directory_order(
    entries: Seq<DirEntry>,
    list: Seq<usize>,
    others: Seq<DirEntry>,
    other_list: Seq<usize>,
)
    requires
        entries.len() <= usize::MAX,
        others.len() <= usize::MAX,
        distinct_names(entries),
        distinct_names(others),
        lists_wav_files(entries, list),
        lists_wav_files(others, other_list),
        forall|name: Seq<u8>| offers(entries, name) <==> offers(others, name),
    ensures
        names_of(entries, list) == names_of(others, other_list),
{
    lemma_listed_names(entries, list);
    lemma_listed_names(others, other_list);
    let s = names_of(entries, list);
    let t = names_of(others, other_list);
    assert forall|name: Seq<u8>| s.contains(name) <==> t.contains(name) by {
        assert(offers(entries, name) <==> offers(others, name));
    }
    strict_order_is_unique(s, t);
}

/// A regular file whose name is any stem, a dot and `wav` in any case is a wav file,
/// whatever the length and the bytes of the stem.
pub proof fn stem_and_extension_make_a_wav_file(entry: DirEntry, stem: Seq<u8>, ext: Seq<u8>)
    requires
        entry.is_file,
        stem.len() > 0,
        ext.len() == 3,
        ext[0] == 0x77 || ext[0] == 0x57,
        ext[1] == 0x61 || ext[1] == 0x41,
        ext[2] == 0x76 || ext[2] == 0x56,
        entry.name@ == stem + seq![0x2eu8] + ext,
    ensures
        entry.is_wav(),
{
    let n = entry.name@.len() as int;
    assert(entry.name@[n - 4] == 0x2e);
    assert(entry.name@[n - 3] == ext[0]);
    assert(entry.name@[n - 2] == ext[1]);
    assert(entry.name@[n - 1] == ext[2]);
}

/// Nothing else is a wav file: it is a regular file, and its name has such a stem and
/// such an extension.
pub proof fn wav_file_has_stem_and_extension(entry: DirEntry)
    requires
        entry.is_wav(),
    ensures
        entry.is_file,
        exists|stem: Seq<u8>, ext: Seq<u8>|
            stem.len() > 0 && ext.len() == 3 && (ext[0] == 0x77 || ext[0] == 0x57) && (ext[1] == 0x61
                || ext[1] == 0x41) && (ext[2] == 0x76 || ext[2] == 0x56) && entry.name@
                == #[trigger] (stem + seq![0x2eu8] + ext),
{
    let name = entry.name@;
    let n = name.len() as int;
    let stem = name.take(n - 4);
    let ext = name.skip(n - 3);
    assert(name =~= stem + seq![0x2eu8] + ext);
}

/// A list of the wav files holds every wav file once, whatever else the directory
/// holds, and nothing that is no wav file.
pub proof fn every_wav_file_is_listed_once(entries: Seq<DirEntry>, list: Seq<usize>)
    requires
        entries.len() <= usize::MAX,
        lists_wav_files(entries, list),
    ensures
        list.no_duplicates(),
        forall|k: int| 0 <= k < list.len() ==> (#[trigger] list[k]) < entries.len(),
        forall|i: int|
            0 <= i < entries.len() ==> (list.contains(i as usize) <==> (#[trigger] entries[i]).is_wav()),
{
    assert forall|k: int, l: int| 0 <= k < list.len() && 0 <= l < list.len() && k != l implies list[k]
        != list[l] by {
        let (a, b) = if k < l {
            (k, l)
        } else {
            (l, k)
        };
        assert(listed_before(entries, list[a] as int, list[b] as int));
        before_is_irreflexive(entries[list[a] as int].name@);
    }
    assert forall|i: int| 0 <= i < entries.len() implies (list.contains(i as usize)
        <==> (#[trigger] entries[i]).is_wav()) by {
        if list.contains(i as usize) {
            let k = choose|k: int| 0 <= k < list.len() && list[k] == i as usize;
            assert(entries[list[k] as int].is_wav());
        }
    }
}

/// A list of the wav files goes by name: of two different names in it, the earlier one
/// is a proper prefix of the later one, or has the smaller byte where they first
/// differ.
pub proof fn listing_goes_by_name(entries: Seq<DirEntry>, list: Seq<usize>, k: int, l: int)
    requires
        lists_wav_files(entries, list),
        0 <= k < l < list.len(),
    ensures
        entries[list[k] as int].name@ == entries[list[l] as int].name@ && list[k] < list[l] || exists|
            d: int,
        |
            0 <= d <= entries[list[k] as int].name@.len() && d < entries[list[l] as int].name@.len()
                && #[trigger] entries[list[k] as int].name@.take(d) == entries[list[l] as int].name@.take(d)
                && (d == entries[list[k] as int].name@.len() || entries[list[k] as int].name@[d]
                < entries[list[l] as int].name@[d]),
{
    assert(listed_before(entries, list[k] as int, list[l] as int));
    if before(entries[list[k] as int].name@, entries[list[l] as int].name@) {
        before_has_a_reason(entries[list[k] as int].name@, entries[list[l] as int].name@);
    }
}

} // verus!
