use vstd::prelude::*;
use vstd::string::StringExecFns;
use crate::errors::PakReaderError;
use crate::fstring::push_char;
use crate::reader::{ile32_at, ile64_at, le32_at, PakReader};
use crate::versions::{
    PakVersionSizes, VERSION_ENCRYPTION_KEY_GUID, VERSION_FNAME_BASED_COMPRESSION,
    VERSION_FROZEN_INDEX, VERSION_INDEX_ENCRYPTION, VERSION_INITIAL, VERSION_LAST,
};

verus! {

/// The magic constant every trailer must carry.
pub const PAK_MAGIC: u32 = 0x5A6F12E1;

/// Decoded trailer metadata.
pub struct PakInfo {
    pub encryption_index_guid: Vec<u8>,
    pub is_encrypted: bool,
    pub magic: u32,
    pub version: i32,
    pub sub_version: i32,
    pub index_offset: i64,
    pub index_size: i64,
    pub index_hash: Vec<u8>,
    pub index_frozen: u8,
    pub compression_methods: Vec<String>,
}

/// The mathematical value of a `PakInfo`.
#[verifier::ext_equal]
pub ghost struct PakInfoModel {
    pub encryption_index_guid: Seq<u8>,
    pub is_encrypted: bool,
    pub magic: int,
    pub version: int,
    pub sub_version: int,
    pub index_offset: int,
    pub index_size: int,
    pub index_hash: Seq<u8>,
    pub index_frozen: int,
    pub compression_methods: Seq<Seq<char>>,
}

impl PakInfo {
    pub open spec fn model(&self) -> PakInfoModel {
        PakInfoModel {
            encryption_index_guid: self.encryption_index_guid@,
            is_encrypted: self.is_encrypted,
            magic: self.magic as int,
            version: self.version as int,
            sub_version: self.sub_version as int,
            index_offset: self.index_offset as int,
            index_size: self.index_size as int,
            index_hash: self.index_hash@,
            index_frozen: self.index_frozen as int,
            compression_methods: self.compression_methods@.map_values(|s: String| s@),
        }
    }
}

/// What decoding one trailer candidate yields: valid metadata, a valid
/// trailer that declares encryption (fatal), or a rejection that sends the
/// prober on to the next candidate size.
pub ghost enum FooterVerdict {
    Accepted(PakInfoModel),
    Encrypted,
    Rejected(PakReaderError),
}

/// The method-name list versions below 8 imply.
pub open spec fn default_methods() -> Seq<Seq<char>> {
    seq!["Zlib"@, "Gzip"@, "Oodle"@]
}

/// The non-empty character runs between NUL bytes of `s` from `i` on, with
/// `cur` the run gathered so far; a final run without a closing NUL is
/// discarded.
pub open spec fn nul_tokens_from(s: Seq<u8>, i: int, cur: Seq<char>) -> Seq<Seq<char>>
    decreases s.len() - i,
{
    if i < 0 || i >= s.len() {
        Seq::empty()
    } else if s[i] == 0 {
        if cur.len() > 0 {
            seq![cur] + nul_tokens_from(s, i + 1, Seq::empty())
        } else {
            nul_tokens_from(s, i + 1, Seq::empty())
        }
    } else {
        nul_tokens_from(s, i + 1, cur.push(s[i] as char))
    }
}

/// The NUL-separated tokens of `s`.
pub open spec fn nul_tokens(s: Seq<u8>) -> Seq<Seq<char>> {
    nul_tokens_from(s, 0, Seq::empty())
}

/// Where the method-name bytes start inside a trailer buffer.
pub open spec fn names_start(version: int) -> int {
    if version >= VERSION_FROZEN_INDEX {
        62
    } else {
        61
    }
}

/// Decode one trailer candidate buffer `h` of `csize` bytes (`csize >= 61`).
/// Field order: 16-byte key id, encrypted flag, magic, version, index
/// offset, index size, 20-byte digest, then (version-gated) the frozen flag
/// and the NUL-separated method names.
pub open spec fn footer_parse(h: Seq<u8>, csize: int) -> FooterVerdict {
    let magic = le32_at(h, 17);
    let version = ile32_at(h, 21);
    if magic != PAK_MAGIC {
        FooterVerdict::Rejected(PakReaderError::MagicMismatch)
    } else if version < VERSION_INITIAL || version > VERSION_LAST {
        FooterVerdict::Rejected(PakReaderError::ReadHeaderError)
    } else if version >= VERSION_FROZEN_INDEX && csize < 62 {
        FooterVerdict::Rejected(PakReaderError::ReadError)
    } else if version >= VERSION_INDEX_ENCRYPTION && h[16] > 0 {
        FooterVerdict::Encrypted
    } else {
        FooterVerdict::Accepted(
            PakInfoModel {
                encryption_index_guid: if version < VERSION_ENCRYPTION_KEY_GUID {
                    Seq::empty()
                } else {
                    h.subrange(0, 16)
                },
                is_encrypted: false,
                magic,
                version,
                sub_version: if csize == 221 && version == 8 {
                    1
                } else {
                    0
                },
                index_offset: ile64_at(h, 25),
                index_size: ile64_at(h, 33),
                index_hash: h.subrange(41, 61),
                index_frozen: if version >= VERSION_FROZEN_INDEX {
                    h[61] as int
                } else {
                    0
                },
                compression_methods: if version < VERSION_FNAME_BASED_COMPRESSION {
                    default_methods()
                } else {
                    nul_tokens(h.subrange(names_start(version), csize))
                },
            },
        )
    }
}

/// The last `csize` bytes of the archive.
pub open spec fn trailer_of(data: Seq<u8>, csize: int) -> Seq<u8> {
    data.subrange(data.len() - csize, data.len() as int)
}

/// Decode the trailer candidate of `csize` bytes at the end of the archive.
pub open spec fn footer_verdict(data: Seq<u8>, csize: int) -> FooterVerdict {
    if csize > data.len() {
        FooterVerdict::Rejected(PakReaderError::ReadError)
    } else {
        footer_parse(trailer_of(data, csize), csize)
    }
}

/// The candidate trailer sizes in probing order, as plain integers.
pub open spec fn candidate_sizes() -> Seq<int> {
    seq![61, 189, 221, 222]
}

/// Probing from candidate `i` on: the verdict of the first candidate that is
/// not rejected, or `Rejected(UnknownVersion)` when every candidate is.
pub open spec fn probe_from(data: Seq<u8>, i: int) -> FooterVerdict
    decreases 4 - i,
{
    if i < 0 || i >= 4 {
        FooterVerdict::Rejected(PakReaderError::UnknownVersion)
    } else {
        match footer_verdict(data, candidate_sizes()[i]) {
            FooterVerdict::Accepted(m) => FooterVerdict::Accepted(m),
            FooterVerdict::Encrypted => FooterVerdict::Encrypted,
            FooterVerdict::Rejected(_) => probe_from(data, i + 1),
        }
    }
}

/// The verdict of probing all candidate trailer sizes, smallest first.
pub open spec fn probe(data: Seq<u8>) -> FooterVerdict {
    probe_from(data, 0)
}

/// Probing fails with an unknown version exactly when every candidate
/// trailer size is rejected.
pub proof fn lemma_probe_exhausted(data: Seq<u8>)
    ensures
        (probe(data) is Rejected) <==> (forall|i: int|
            0 <= i < 4 ==> (footer_verdict(data, #[trigger] candidate_sizes()[i])) is Rejected),
        probe(data) is Rejected ==> probe(data) == FooterVerdict::Rejected(
            PakReaderError::UnknownVersion,
        ),
{
    reveal_with_fuel(probe_from, 5);
    let s = candidate_sizes();
    if footer_verdict(data, s[0]) is Rejected && footer_verdict(data, s[1]) is Rejected
        && footer_verdict(data, s[2]) is Rejected && footer_verdict(data, s[3]) is Rejected {
        assert(probe(data) == FooterVerdict::Rejected(PakReaderError::UnknownVersion));
        assert(forall|i: int|
            0 <= i < 4 ==> (footer_verdict(data, #[trigger] candidate_sizes()[i])) is Rejected);
    } else {
        assert(!(probe(data) is Rejected));
    }
}

/// Probing converges on the smallest workable candidate: an accepted
/// verdict comes from some candidate trailer size, taken in ascending
/// order, every smaller candidate having been rejected.
pub proof fn lemma_probe_first_candidate(data: Seq<u8>)
    ensures
        probe(data) matches FooterVerdict::Accepted(m) ==> exists|i: int|
            0 <= i < 4 && footer_verdict(data, #[trigger] candidate_sizes()[i])
                == FooterVerdict::Accepted(m) && (forall|j: int|
                0 <= j < i ==> (footer_verdict(data, #[trigger] candidate_sizes()[j])) is Rejected),
{
    reveal_with_fuel(probe_from, 5);
    if probe(data) is Accepted {
        let m = probe(data)->Accepted_0;
        let s = candidate_sizes();
        if footer_verdict(data, s[0]) is Rejected {
            if footer_verdict(data, s[1]) is Rejected {
                if footer_verdict(data, s[2]) is Rejected {
                    assert(footer_verdict(data, s[3]) == FooterVerdict::Accepted(m));
                    assert(forall|j: int|
                        0 <= j < 3 ==> (footer_verdict(
                            data,
                            #[trigger] candidate_sizes()[j],
                        )) is Rejected);
                } else {
                    assert(footer_verdict(data, s[2]) == FooterVerdict::Accepted(m));
                    assert(forall|j: int|
                        0 <= j < 2 ==> (footer_verdict(
                            data,
                            #[trigger] candidate_sizes()[j],
                        )) is Rejected);
                }
            } else {
                assert(footer_verdict(data, s[1]) == FooterVerdict::Accepted(m));
            }
        } else {
            assert(footer_verdict(data, s[0]) == FooterVerdict::Accepted(m));
        }
    }
}

impl PakReader {
    /// Decode the trailer candidate of the given size at the end of the
    /// archive. On a valid trailer the shared position is reset to the
    /// archive start.
    pub fn read_pak_info(&mut self, version_size: PakVersionSizes) -> (r: Result<
        PakInfo,
        PakReaderError,
    >)
        requires
            old(self).wf(),
        ensures
            final(self).wf(),
            final(self).data_spec() == old(self).data_spec(),
            match footer_verdict(old(self).data_spec(), version_size.size_spec()) {
                FooterVerdict::Accepted(m) => {
                    &&& r is Ok
                    &&& r->Ok_0.model() == m
                    &&& final(self).pos_spec() == 0
                },
                FooterVerdict::Encrypted => r == Err::<PakInfo, PakReaderError>(
                    PakReaderError::EncryptionNotSupported,
                ),
                FooterVerdict::Rejected(e) => r == Err::<PakInfo, PakReaderError>(e),
            },
            old(self).data_spec().len() >= version_size.size_spec() ==> final(self).pos_spec()
                == 0,
            old(self).data_spec().len() < version_size.size_spec() ==> final(self).pos_spec()
                == old(self).pos_spec(),
    {
        let vs = version_size.size_bytes();
        // read the candidate-sized trailer from the end
        if self.seek_index(-(vs as i64)).is_err() {
            return Err(PakReaderError::ReadError);
        }
        let header = match self.read_bytes(vs) {
            Ok(v) => v,
            Err(e) => {
                return Err(e);
            },
        };
        // reset the shared position to the archive start
        self.set_position(0);

        let ghost h = header@;
        let mut sub = PakReader::new(header);

        let guid = match sub.read_bytes(16) {
            Ok(v) => v,
            Err(_) => {
                return Err(PakReaderError::ReadError);
            },
        };
        let enc_byte = match sub.read_u8() {
            Ok(v) => v,
            Err(_) => {
                return Err(PakReaderError::ReadError);
            },
        };
        let magic = match sub.read_u32() {
            Ok(v) => v,
            Err(_) => {
                return Err(PakReaderError::ReadError);
            },
        };
        if magic != PAK_MAGIC {
            return Err(PakReaderError::MagicMismatch);
        }
        let version = match sub.read_i32() {
            Ok(v) => v,
            Err(_) => {
                return Err(PakReaderError::ReadError);
            },
        };
        if version < VERSION_INITIAL || version > VERSION_LAST {
            return Err(PakReaderError::ReadHeaderError);
        }
        let index_offset = match sub.read_i64() {
            Ok(v) => v,
            Err(_) => {
                return Err(PakReaderError::ReadError);
            },
        };
        let index_size = match sub.read_i64() {
            Ok(v) => v,
            Err(_) => {
                return Err(PakReaderError::ReadError);
            },
        };
        let index_hash = match sub.read_bytes(20) {
            Ok(v) => v,
            Err(_) => {
                return Err(PakReaderError::ReadError);
            },
        };
        let sub_version: i32 = if vs == 221 && version == 8 {
            1
        } else {
            0
        };

        let is_encrypted = if version < VERSION_INDEX_ENCRYPTION {
            false
        } else {
            enc_byte > 0
        };
        let encryption_index_guid = if version < VERSION_ENCRYPTION_KEY_GUID {
            Vec::new()
        } else {
            guid
        };

        let index_frozen: u8 = if version >= VERSION_FROZEN_INDEX {
            match sub.read_u8() {
                Ok(v) => v,
                Err(e) => {
                    return Err(e);
                },
            }
        } else {
            0
        };

        let mut methods: Vec<String> = Vec::new();
        if version < VERSION_FNAME_BASED_COMPRESSION {
            methods.push(String::from_str("Zlib"));
            methods.push(String::from_str("Gzip"));
            methods.push(String::from_str("Oodle"));
            proof {
                assert(methods@.map_values(|s: String| s@) =~= default_methods());
            }
        } else {
            let ghost start = sub.pos_spec();
            let ghost rem = h.subrange(start, vs as int);
            let mut cur = String::new();
            let mut cur_len: usize = 0;
            let mut i: usize = sub.position();
            proof {
                assert(nul_tokens(rem) == methods@.map_values(|s: String| s@) + nul_tokens_from(
                    rem,
                    0,
                    cur@,
                ));
            }
            while i < vs
                invariant
                    sub.wf(),
                    sub.data_spec() == h,
                    h.len() == vs as int,
                    start == names_start(ile32_at(h, 21)),
                    61 <= start,
                    start <= i as int,
                    i <= vs,
                    rem == h.subrange(start, vs as int),
                    sub.pos_spec() == i as int,
                    cur_len == cur@.len(),
                    cur_len <= i,
                    nul_tokens(rem) == methods@.map_values(|s: String| s@) + nul_tokens_from(
                        rem,
                        i as int - start,
                        cur@,
                    ),
                decreases vs - i,
            {
                let b = match sub.read_u8() {
                    Ok(v) => v,
                    Err(_) => {
                        proof {
                            assert(false);
                        }
                        return Err(PakReaderError::ReadError);
                    },
                };
                proof {
                    assert(rem[i as int - start] == b);
                }
                if b == 0 {
                    if cur_len > 0 {
                        let ghost old_methods = methods@;
                        let ghost cur_view = cur@;
                        methods.push(cur);
                        cur = String::new();
                        cur_len = 0;
                        proof {
                            assert(methods@.map_values(|s: String| s@) =~= old_methods.map_values(
                                |s: String| s@,
                            ).push(cur_view));
                            assert(nul_tokens_from(rem, i as int - start, cur_view) == seq![cur_view]
                                + nul_tokens_from(rem, i as int + 1 - start, Seq::<char>::empty()));
                            assert(nul_tokens(rem) =~= methods@.map_values(|s: String| s@)
                                + nul_tokens_from(rem, i as int + 1 - start, cur@));
                        }
                    } else {
                        proof {
                            assert(nul_tokens_from(rem, i as int - start, cur@) == nul_tokens_from(
                                rem,
                                i as int + 1 - start,
                                Seq::<char>::empty(),
                            ));
                            assert(cur@ =~= Seq::<char>::empty());
                        }
                    }
                } else {
                    push_char(&mut cur, b as char);
                    cur_len = cur_len + 1;
                }
                i = i + 1;
            }
            proof {
                assert(i as int - start == rem.len());
                assert(nul_tokens_from(rem, i as int - start, cur@) == Seq::<Seq<char>>::empty());
                assert(nul_tokens(rem) =~= methods@.map_values(|s: String| s@));
            }
        }

        if is_encrypted {
            return Err(PakReaderError::EncryptionNotSupported);
        }

        let info = PakInfo {
            encryption_index_guid,
            is_encrypted,
            magic,
            version,
            sub_version,
            index_offset,
            index_size,
            index_hash,
            index_frozen,
            compression_methods: methods,
        };
        proof {
            let m = footer_parse(h, version_size.size_spec())->Accepted_0;
            assert(info.model() =~= m);
        }
        Ok(info)
    }

    /// Probe the candidate trailer sizes, smallest first, and decode the
    /// first candidate that yields a valid trailer. A valid trailer that
    /// declares encryption refuses the whole archive; exhausting every
    /// candidate yields `UnknownVersion`.
    pub fn get_pak_info(&mut self) -> (r: Result<PakInfo, PakReaderError>)
        requires
            old(self).wf(),
        ensures
            final(self).wf(),
            final(self).data_spec() == old(self).data_spec(),
            match probe(old(self).data_spec()) {
                FooterVerdict::Accepted(m) => {
                    &&& r is Ok
                    &&& r->Ok_0.model() == m
                    &&& final(self).pos_spec() == 0
                },
                FooterVerdict::Encrypted => r == Err::<PakInfo, PakReaderError>(
                    PakReaderError::EncryptionNotSupported,
                ),
                FooterVerdict::Rejected(e) => r == Err::<PakInfo, PakReaderError>(
                    PakReaderError::UnknownVersion,
                ),
            },
            old(self).data_spec().len() >= 61 ==> final(self).pos_spec() == 0,
            old(self).data_spec().len() < 61 ==> final(self).pos_spec() == old(self).pos_spec(),
    {
        let sizes = PakVersionSizes::get_sizes();
        let mut i: usize = 0;
        while i < 4
            invariant
                old(self).wf(),
                self.wf(),
                self.data_spec() == old(self).data_spec(),
                sizes@ == seq![
                    PakVersionSizes::Size,
                    PakVersionSizes::SizeV8,
                    PakVersionSizes::SizeV8A,
                    PakVersionSizes::SizeV9,
                ],
                i <= 4,
                probe(old(self).data_spec()) == probe_from(old(self).data_spec(), i as int),
                i > 0 && old(self).data_spec().len() >= 61 ==> self.pos_spec() == 0,
                old(self).data_spec().len() < 61 ==> self.pos_spec() == old(self).pos_spec(),
            decreases 4 - i,
        {
            proof {
                assert(sizes@[i as int].size_spec() == candidate_sizes()[i as int]);
            }
            match self.read_pak_info(sizes[i]) {
                Ok(info) => {
                    return Ok(info);
                },
                Err(e) => {
                    if e == PakReaderError::EncryptionNotSupported {
                        return Err(PakReaderError::EncryptionNotSupported);
                    }
                },
            }
            i = i + 1;
        }
        Err(PakReaderError::UnknownVersion)
    }
}

} // verus!
