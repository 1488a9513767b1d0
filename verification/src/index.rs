use vstd::prelude::*;
use crate::entry::{entry_parse, read_pak_entry, PakEntry, PakEntryModel};
use crate::errors::PakReaderError;
use crate::footer::{PakInfo, PakInfoModel};
use crate::fstring::{chars_to_string, fstring_parse};
use crate::reader::{ile32_at, seek_target, PakReader};

verus! {

/// A decoded index: the sanitized mount point and the named entry records,
/// in the order the index lists them.
pub type PakData = (String, Vec<(String, PakEntry)>);

/// The parent-escape sequence `"../../../"` stands at `i`.
pub open spec fn escape_at(s: Seq<char>, i: int) -> bool {
    &&& 0 <= i
    &&& i + 9 <= s.len()
    &&& s[i] == '.'
    &&& s[i + 1] == '.'
    &&& s[i + 2] == '/'
    &&& s[i + 3] == '.'
    &&& s[i + 4] == '.'
    &&& s[i + 5] == '/'
    &&& s[i + 6] == '.'
    &&& s[i + 7] == '.'
    &&& s[i + 8] == '/'
}

/// `s` from `i` on with every parent-escape sequence struck out, scanning
/// left to right.
pub open spec fn strip_from(s: Seq<char>, i: int) -> Seq<char>
    decreases s.len() - i,
{
    if i < 0 || i >= s.len() {
        Seq::empty()
    } else if escape_at(s, i) {
        strip_from(s, i + 9)
    } else {
        seq![s[i]] + strip_from(s, i + 1)
    }
}

/// `s` with every parent-escape sequence struck out.
pub open spec fn strip_escapes(s: Seq<char>) -> Seq<char> {
    strip_from(s, 0)
}

/// The index blob the trailer metadata points at: `size` bytes at the
/// index offset, a negative offset counting back from the archive end.
pub open spec fn index_slice(data: Seq<u8>, offset: int, size: int) -> Option<Seq<u8>> {
    let target = seek_target(data.len() as int, offset);
    if 0 <= target && 0 <= size && target + size <= data.len() {
        Some(data.subrange(target, target + size))
    } else {
        None
    }
}

/// No two directory pairs carry the same name.
pub open spec fn dir_keys_unique(es: Seq<(Seq<char>, PakEntryModel)>) -> bool {
    forall|i: int, j: int| 0 <= i < j < es.len() ==> es[i].0 != es[j].0
}

/// `es` with `(name, em)` inserted: a pair already carrying `name` — the
/// first, were there several — is overwritten in place, else the pair goes
/// at the end.
pub open spec fn dir_insert(
    es: Seq<(Seq<char>, PakEntryModel)>,
    name: Seq<char>,
    em: PakEntryModel,
) -> Seq<(Seq<char>, PakEntryModel)>
    decreases es.len(),
{
    if es.len() == 0 {
        seq![(name, em)]
    } else if es[0].0 == name {
        seq![(name, em)] + es.drop_first()
    } else {
        seq![es[0]] + dir_insert(es.drop_first(), name, em)
    }
}

proof fn lemma_dir_insert_at(
    es: Seq<(Seq<char>, PakEntryModel)>,
    name: Seq<char>,
    em: PakEntryModel,
    j: int,
)
    requires
        0 <= j < es.len(),
        es[j].0 == name,
        forall|k: int| 0 <= k < j ==> es[k].0 != name,
    ensures
        dir_insert(es, name, em) == es.update(j, (name, em)),
    decreases j,
{
    if j == 0 {
        assert(seq![(name, em)] + es.drop_first() =~= es.update(0, (name, em)));
    } else {
        assert(forall|k: int| 0 <= k < j - 1 ==> es.drop_first()[k].0 != name);
        lemma_dir_insert_at(es.drop_first(), name, em, j - 1);
        assert(seq![es[0]] + es.drop_first().update(j - 1, (name, em)) =~= es.update(
            j,
            (name, em),
        ));
    }
}

proof fn lemma_dir_insert_absent(
    es: Seq<(Seq<char>, PakEntryModel)>,
    name: Seq<char>,
    em: PakEntryModel,
)
    requires
        forall|k: int| 0 <= k < es.len() ==> es[k].0 != name,
    ensures
        dir_insert(es, name, em) == es.push((name, em)),
    decreases es.len(),
{
    if es.len() == 0 {
        assert(seq![(name, em)] =~= es.push((name, em)));
    } else {
        assert(forall|k: int| 0 <= k < es.drop_first().len() ==> es.drop_first()[k].0 != name);
        lemma_dir_insert_absent(es.drop_first(), name, em);
        assert(seq![es[0]] + es.drop_first().push((name, em)) =~= es.push((name, em)));
    }
}

/// Put one named record into the directory, overwriting any record that
/// already carries the name; unique names stay unique.
fn insert_entry(entries: &mut Vec<(String, PakEntry)>, name: String, entry: PakEntry)
    ensures
        dir_view(final(entries)@) == dir_insert(
            dir_view(old(entries)@),
            name@,
            entry.model(),
        ),
        dir_keys_unique(dir_view(old(entries)@)) ==> dir_keys_unique(
            dir_view(final(entries)@),
        ),
{
    let ghost es = dir_view(entries@);
    let ghost em = entry.model();
    let n = entries.len();
    let mut j: usize = 0;
    while j < n
        invariant
            es == dir_view(entries@),
            entries@ == old(entries)@,
            n == entries@.len(),
            j <= n,
            em == entry.model(),
            forall|k: int| 0 <= k < j ==> es[k].0 != name@,
        decreases n - j,
    {
        if entries[j].0 == name {
            entries.remove(j);
            entries.insert(j, (name, entry));
            proof {
                lemma_dir_insert_at(es, name@, em, j as int);
                assert(entries@.len() == old(entries)@.len());
                assert(entries@[j as int].0@ == name@);
                assert(entries@[j as int].1.model() == em);
                assert forall|i: int|
                    0 <= i < entries@.len() && i != j as int implies entries@[i] == old(
                    entries,
                )@[i] by {
                    let removed = old(entries)@.remove(j as int);
                    if i < j as int {
                        assert(removed[i] == old(entries)@[i]);
                        assert(entries@[i] == removed[i]);
                    } else {
                        assert(removed[i - 1] == old(entries)@[i]);
                        assert(entries@[i] == removed[i - 1]);
                    }
                }
                assert forall|i: int|
                    0 <= i < entries@.len() implies #[trigger] dir_view(entries@)[i] == es.update(
                    j as int,
                    (name@, em),
                )[i] by {
                    assert(dir_view(entries@)[i] == (entries@[i].0@, entries@[i].1.model()));
                    assert(dir_view(old(entries)@)[i] == (
                        old(entries)@[i].0@,
                        old(entries)@[i].1.model(),
                    ));
                }
                assert(dir_view(entries@) =~= es.update(j as int, (name@, em)));
                if dir_keys_unique(es) {
                    assert forall|i1: int, i2: int|
                        0 <= i1 < i2 < dir_view(entries@).len() implies dir_view(
                        entries@,
                    )[i1].0 != dir_view(entries@)[i2].0 by {
                        assert(es[j as int].0 == name@);
                    }
                }
            }
            return ;
        }
        j = j + 1;
    }
    entries.push((name, entry));
    proof {
        lemma_dir_insert_absent(es, name@, em);
        assert(dir_view(entries@) =~= es.push((name@, em)));
    }
}

/// `remaining` (name, entry record) pairs at `pos`, each put into `acc` so
/// that a later record for a name overrides an earlier one.
pub open spec fn entries_from(
    s: Seq<u8>,
    pos: int,
    remaining: int,
    version: int,
    sub_version: int,
    acc: Seq<(Seq<char>, PakEntryModel)>,
) -> Option<Seq<(Seq<char>, PakEntryModel)>>
    decreases remaining,
{
    if remaining <= 0 {
        Some(acc)
    } else {
        match fstring_parse(s, pos) {
            None => None,
            Some(nv) => match entry_parse(s, nv.1, version, sub_version) {
                None => None,
                Some(ev) => entries_from(
                    s,
                    ev.1,
                    remaining - 1,
                    version,
                    sub_version,
                    dir_insert(acc, nv.0, ev.0),
                ),
            },
        }
    }
}

proof fn lemma_entries_from_step(
    s: Seq<u8>,
    pos: int,
    remaining: int,
    version: int,
    sub_version: int,
    acc: Seq<(Seq<char>, PakEntryModel)>,
)
    requires
        remaining > 0,
    ensures
        entries_from(s, pos, remaining, version, sub_version, acc) == (match fstring_parse(
            s,
            pos,
        ) {
            None => None,
            Some(nv) => match entry_parse(s, nv.1, version, sub_version) {
                None => None,
                Some(ev) => entries_from(
                    s,
                    ev.1,
                    remaining - 1,
                    version,
                    sub_version,
                    dir_insert(acc, nv.0, ev.0),
                ),
            },
        }),
{
}

/// The mount point and entry list encoded by the index blob: a string, a
/// signed entry count, then that many (name, record) pairs.
pub open spec fn index_parse(s: Seq<u8>, version: int, sub_version: int) -> Option<
    (Seq<char>, Seq<(Seq<char>, PakEntryModel)>),
> {
    match fstring_parse(s, 0) {
        None => None,
        Some(mv) => {
            if mv.1 + 4 > s.len() {
                None
            } else {
                let count = ile32_at(s, mv.1);
                match entries_from(s, mv.1 + 4, count, version, sub_version, Seq::empty()) {
                    None => None,
                    Some(es) => Some((strip_escapes(mv.0), es)),
                }
            }
        },
    }
}

/// The decoded index of an archive with the given trailer metadata.
pub open spec fn index_of_info(data: Seq<u8>, m: PakInfoModel) -> Option<
    (Seq<char>, Seq<(Seq<char>, PakEntryModel)>),
> {
    match index_slice(data, m.index_offset, m.index_size) {
        None => None,
        Some(idx) => index_parse(idx, m.version, m.sub_version),
    }
}

/// The model of an exec directory: each name with its record's value.
pub open spec fn dir_view(es: Seq<(String, PakEntry)>) -> Seq<(Seq<char>, PakEntryModel)> {
    es.map_values(|p: (String, PakEntry)| (p.0@, p.1.model()))
}

fn escape_matches(v: &Vec<char>, i: usize) -> (r: bool)
    requires
        i < v@.len(),
    ensures
        r == escape_at(v@, i as int),
{
    if v.len() - i >= 9 {
        v[i] == '.' && v[i + 1] == '.' && v[i + 2] == '/' && v[i + 3] == '.' && v[i + 4] == '.'
            && v[i + 5] == '/' && v[i + 6] == '.' && v[i + 7] == '.' && v[i + 8] == '/'
    } else {
        false
    }
}

/// Strike every parent-escape sequence out of a mount point, so that it
/// cannot climb above the directory it is later joined to.
pub fn sanitize_mount_point(v: &Vec<char>) -> (r: Vec<char>)
    ensures
        r@ == strip_escapes(v@),
{
    let mut out: Vec<char> = Vec::new();
    let mut i: usize = 0;
    proof {
        assert(strip_escapes(v@) =~= out@ + strip_from(v@, 0));
    }
    while i < v.len()
        invariant
            i <= v@.len(),
            strip_escapes(v@) == out@ + strip_from(v@, i as int),
        decreases v@.len() - i,
    {
        if escape_matches(v, i) {
            proof {
                assert(strip_from(v@, i as int) == strip_from(v@, i as int + 9));
            }
            i = i + 9;
        } else {
            let ghost old_out = out@;
            out.push(v[i]);
            proof {
                assert(strip_from(v@, i as int) == seq![v@[i as int]] + strip_from(
                    v@,
                    i as int + 1,
                ));
                assert(old_out + strip_from(v@, i as int) =~= out@ + strip_from(
                    v@,
                    i as int + 1,
                ));
            }
            i = i + 1;
        }
    }
    proof {
        assert(out@ + strip_from(v@, i as int) =~= out@);
    }
    out
}

impl PakReader {
    /// Read the index blob into a buffer of its own, restoring the shared
    /// position afterwards.
    fn read_pak_index(&mut self, info: &PakInfo) -> (r: Result<Vec<u8>, PakReaderError>)
        requires
            old(self).wf(),
        ensures
            final(self).wf(),
            final(self).data_spec() == old(self).data_spec(),
            match index_slice(
                old(self).data_spec(),
                info.index_offset as int,
                info.index_size as int,
            ) {
                Some(idx) => {
                    &&& r is Ok
                    &&& r->Ok_0@ == idx
                    &&& final(self).pos_spec() == old(self).pos_spec()
                },
                None => r == Err::<Vec<u8>, PakReaderError>(PakReaderError::ReadError),
            },
    {
        let position = self.position();
        match self.seek_index(info.index_offset) {
            Ok(_) => {},
            Err(e) => {
                return Err(e);
            },
        }
        if info.index_size < 0 {
            return Err(PakReaderError::ReadError);
        }
        let size64 = info.index_size as u64;
        let dlen = self.data_len();
        if size64 > (dlen as u64) {
            return Err(PakReaderError::ReadError);
        }
        let buffer = match self.read_bytes(size64 as usize) {
            Ok(v) => v,
            Err(e) => {
                return Err(e);
            },
        };
        self.set_position(position);
        Ok(buffer)
    }

    /// Decode the whole index: the sanitized mount point and every named
    /// entry record, in order. The shared position is restored before
    /// returning.
    pub fn get_pak_entries(&mut self, info: &PakInfo) -> (r: Result<PakData, PakReaderError>)
        requires
            old(self).wf(),
        ensures
            final(self).wf(),
            final(self).data_spec() == old(self).data_spec(),
            match index_of_info(old(self).data_spec(), info.model()) {
                Some(v) => {
                    &&& r is Ok
                    &&& r->Ok_0.0@ == v.0
                    &&& dir_view(r->Ok_0.1@) == v.1
                    &&& dir_keys_unique(dir_view(r->Ok_0.1@))
                    &&& final(self).pos_spec() == old(self).pos_spec()
                },
                None => r == Err::<PakData, PakReaderError>(PakReaderError::ReadError),
            },
    {
        let index = match self.read_pak_index(info) {
            Ok(v) => v,
            Err(e) => {
                return Err(e);
            },
        };
        let mut sub = PakReader::new(index);
        let ghost idx = sub.data_spec();

        let mount_chars = match sub.read_fstring_chars() {
            Ok(v) => v,
            Err(_) => {
                return Err(PakReaderError::ReadError);
            },
        };
        let entry_count = match sub.read_i32() {
            Ok(v) => v,
            Err(_) => {
                return Err(PakReaderError::ReadError);
            },
        };
        let sane = sanitize_mount_point(&mount_chars);
        let mount_point = chars_to_string(&sane);

        let ghost p0 = sub.pos_spec();
        let mut entries: Vec<(String, PakEntry)> = Vec::new();
        let mut j: i32 = 0;
        proof {
            assert(dir_view(entries@) =~= Seq::<(Seq<char>, PakEntryModel)>::empty());
        }
        while j < entry_count
            invariant
                self.wf(),
                self.data_spec() == old(self).data_spec(),
                self.pos_spec() == old(self).pos_spec(),
                index_slice(
                    old(self).data_spec(),
                    info.index_offset as int,
                    info.index_size as int,
                ) == Some(idx),
                fstring_parse(idx, 0) is Some,
                fstring_parse(idx, 0)->Some_0.1 + 4 <= idx.len(),
                p0 == fstring_parse(idx, 0)->Some_0.1 + 4,
                entry_count as int == ile32_at(idx, fstring_parse(idx, 0)->Some_0.1),
                mount_point@ == strip_escapes(fstring_parse(idx, 0)->Some_0.0),
                sub.wf(),
                sub.data_spec() == idx,
                0 <= j,
                entry_count > 0 ==> j <= entry_count,
                entry_count <= 0 ==> j == 0,
                dir_keys_unique(dir_view(entries@)),
                entries_from(
                    idx,
                    p0,
                    entry_count as int,
                    info.version as int,
                    info.sub_version as int,
                    Seq::empty(),
                ) == entries_from(
                    idx,
                    sub.pos_spec(),
                    entry_count - j,
                    info.version as int,
                    info.sub_version as int,
                    dir_view(entries@),
                ),
            decreases entry_count - j,
        {
            let ghost pj = sub.pos_spec();
            proof {
                lemma_entries_from_step(
                    idx,
                    pj,
                    entry_count - j,
                    info.version as int,
                    info.sub_version as int,
                    dir_view(entries@),
                );
            }
            let name = match sub.read_fstring() {
                Ok(v) => v,
                Err(_) => {
                    return Err(PakReaderError::ReadError);
                },
            };
            let entry = match read_pak_entry(&mut sub, info) {
                Ok(v) => v,
                Err(_) => {
                    return Err(PakReaderError::ReadError);
                },
            };
            insert_entry(&mut entries, name, entry);
            j = j + 1;
        }
        Ok((mount_point, entries))
    }
}

} // verus!
