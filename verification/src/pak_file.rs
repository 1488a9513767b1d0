use vstd::prelude::*;
use vstd::string::StringExecFns;
use crate::data::entry_data_of;
use crate::entry::{PakEntry, PakEntryModel};
use crate::errors::{PakError, PakReaderError};
use crate::footer::{probe, FooterVerdict, PakInfo, PakInfoModel};
use crate::index::{dir_keys_unique, dir_view, index_of_info};
use crate::reader::PakReader;

verus! {

/// The record the directory yields for `name` among its first `i` pairs: of
/// the pairs carrying that name, the last one listed, so that a later
/// record for the same name overrides an earlier one.
pub open spec fn dir_lookup_upto(
    es: Seq<(Seq<char>, PakEntryModel)>,
    i: int,
    name: Seq<char>,
) -> Option<PakEntryModel>
    decreases i,
{
    if i <= 0 || i > es.len() {
        None
    } else if es[i - 1].0 == name {
        Some(es[i - 1].1)
    } else {
        dir_lookup_upto(es, i - 1, name)
    }
}

/// The record the directory yields for `name`, if any.
pub open spec fn dir_lookup(es: Seq<(Seq<char>, PakEntryModel)>, name: Seq<char>) -> Option<
    PakEntryModel,
> {
    dir_lookup_upto(es, es.len() as int, name)
}

/// Everything opening an archive from its complete bytes decodes: the
/// trailer metadata, the sanitized mount point and the entry directory; or
/// the error the attempt fails with.
pub open spec fn pak_parse(data: Seq<u8>) -> Result<
    (PakInfoModel, Seq<char>, Seq<(Seq<char>, PakEntryModel)>),
    PakError,
> {
    match probe(data) {
        FooterVerdict::Accepted(m) => match index_of_info(data, m) {
            Some(v) => Ok((m, v.0, v.1)),
            None => Err(PakError::ReaderError(PakReaderError::ReadError)),
        },
        FooterVerdict::Encrypted => Err(
            PakError::ReaderError(PakReaderError::EncryptionNotSupported),
        ),
        FooterVerdict::Rejected(_) => Err(PakError::ReaderError(PakReaderError::UnknownVersion)),
    }
}

/// An archive whose trailer declares encryption, once the version gates are
/// applied, never opens: the attempt fails with the unsupported-encryption
/// error and yields no directory and no entry data.
pub proof fn lemma_encrypted_refused(data: Seq<u8>)
    ensures
        probe(data) is Encrypted ==> pak_parse(data) == Err::<
            (PakInfoModel, Seq<char>, Seq<(Seq<char>, PakEntryModel)>),
            PakError,
        >(PakError::ReaderError(PakReaderError::EncryptionNotSupported)),
{
}

/// A parsed archive: the decoded trailer metadata, the sanitized mount
/// point, the named entry directory, and the backing bytes they were all
/// decoded from.
pub struct PakFile {
    pub info: PakInfo,
    pub mount_point: String,
    pub file_indexes: Vec<(String, PakEntry)>,
    pub reader: PakReader,
}

impl PakFile {
    /// The archive's complete backing bytes.
    pub closed spec fn data_spec(&self) -> Seq<u8> {
        self.reader.data_spec()
    }

    /// The shared cursor never runs past the end of the backing bytes.
    pub closed spec fn reader_wf(&self) -> bool {
        self.reader.wf()
    }

    /// A parsed archive is intact: its metadata, mount point and directory
    /// are exactly what its backing bytes decode to, and no two directory
    /// pairs carry the same name.
    pub open spec fn wf(&self) -> bool {
        &&& self.reader_wf()
        &&& dir_keys_unique(dir_view(self.file_indexes@))
        &&& pak_parse(self.data_spec()) == Ok::<
            (PakInfoModel, Seq<char>, Seq<(Seq<char>, PakEntryModel)>),
            PakError,
        >((self.info.model(), self.mount_point@, dir_view(self.file_indexes@)))
    }

    /// Parse a complete archive held in memory.
    pub fn from_memory(buffer: Vec<u8>) -> (r: Result<PakFile, PakError>)
        ensures
            match pak_parse(buffer@) {
                Ok(v) => {
                    &&& r is Ok
                    &&& r->Ok_0.wf()
                    &&& r->Ok_0.data_spec() == buffer@
                    &&& r->Ok_0.info.model() == v.0
                    &&& r->Ok_0.mount_point@ == v.1
                    &&& dir_view(r->Ok_0.file_indexes@) == v.2
                },
                Err(e) => r == Err::<PakFile, PakError>(e),
            },
    {
        let mut reader = PakReader::new(buffer);
        let pak_info = match reader.get_pak_info() {
            Ok(v) => v,
            Err(e) => {
                return Err(PakError::ReaderError(e));
            },
        };
        let (mount_point, indexes) = match reader.get_pak_entries(&pak_info) {
            Ok(v) => v,
            Err(e) => {
                return Err(PakError::ReaderError(e));
            },
        };
        Ok(PakFile { info: pak_info, mount_point, file_indexes: indexes, reader })
    }

    /// Look a name up in the directory and fetch its payload. An unknown
    /// name is an explicit absence, never an error; a known name yields its
    /// decoded payload or the error the fetch fails with.
    pub fn get_entry_data(&mut self, index: &str) -> (r: Result<Option<Vec<u8>>, PakError>)
        requires
            old(self).reader_wf(),
        ensures
            final(self).reader_wf(),
            final(self).data_spec() == old(self).data_spec(),
            final(self).info == old(self).info,
            final(self).mount_point == old(self).mount_point,
            final(self).file_indexes == old(self).file_indexes,
            match dir_lookup(dir_view(old(self).file_indexes@), index@) {
                None => r == Ok::<Option<Vec<u8>>, PakError>(None),
                Some(em) => match entry_data_of(old(self).data_spec(), em) {
                    Ok(d) => {
                        &&& r is Ok
                        &&& r->Ok_0 matches Some(v)
                        &&& v@ == d
                    },
                    Err(e) => r == Err::<Option<Vec<u8>>, PakError>(PakError::ReaderError(e)),
                },
            },
    {
        let key = String::from_str(index);
        let ghost es = dir_view(self.file_indexes@);
        let n = self.file_indexes.len();
        let mut i: usize = n;
        while i > 0
            invariant
                self == old(self),
                self.reader_wf(),
                es == dir_view(self.file_indexes@),
                n == self.file_indexes@.len(),
                i <= n,
                key@ == index@,
                dir_lookup(es, index@) == dir_lookup_upto(es, i as int, index@),
            decreases i,
        {
            if self.file_indexes[i - 1].0 == key {
                proof {
                    assert(es[i as int - 1].0 == index@);
                    assert(dir_lookup_upto(es, i as int, index@) == Some(es[i as int - 1].1));
                }
                let e = &self.file_indexes[i - 1].1;
                return match self.reader.get_pak_entry_data(e) {
                    Ok(v) => Ok(Some(v)),
                    Err(e) => Err(PakError::ReaderError(e)),
                };
            }
            proof {
                assert(es[i as int - 1].0 != index@);
            }
            i = i - 1;
        }
        Ok(None)
    }
}

} // verus!
