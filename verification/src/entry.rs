use vstd::prelude::*;
use crate::errors::PakReaderError;
use crate::footer::PakInfo;
use crate::reader::{ile32_at, ile64_at, le32_at, le64_at, PakReader};
use crate::versions::{
    VERSION_COMPRESSION_ENCRYPTION, VERSION_FNAME_BASED_COMPRESSION, VERSION_NO_TIMESTAMPS,
};

verus! {

/// One independently compressed chunk of an entry's payload, delimited by
/// its byte markers within the archive body.
#[derive(Clone, Copy, Debug, PartialEq, Eq, Structural)]
pub struct PakCompressionBlock {
    pub compression_start: i64,
    pub compression_end: i64,
}

impl PakCompressionBlock {
    /// Number of bytes between the block's markers.
    pub fn get_size(&self) -> (r: i64)
        requires
            i64::MIN <= self.compression_end - self.compression_start <= i64::MAX,
        ensures
            r as int == self.compression_end - self.compression_start,
    {
        self.compression_end - self.compression_start
    }
}

/// One directory record: where a named payload lives, its sizes, its
/// compression, and the size of the record itself.
pub struct PakEntry {
    pub start: u64,
    pub offset: u64,
    pub size: u64,
    pub flags: u8,
    pub timestamp: u64,
    pub hash: Vec<u8>,
    pub uncompressed_size: u64,
    pub compression_index: u32,
    pub compression_block_size: u32,
    pub compression_blocks: Vec<PakCompressionBlock>,
    pub header_size: u64,
}

/// The mathematical value of a `PakEntry`.
#[verifier::ext_equal]
pub ghost struct PakEntryModel {
    pub start: u64,
    pub offset: u64,
    pub size: u64,
    pub flags: u8,
    pub timestamp: u64,
    pub hash: Seq<u8>,
    pub uncompressed_size: u64,
    pub compression_index: u32,
    pub compression_block_size: u32,
    pub compression_blocks: Seq<PakCompressionBlock>,
    pub header_size: u64,
}

impl PakEntry {
    pub open spec fn model(&self) -> PakEntryModel {
        PakEntryModel {
            start: self.start,
            offset: self.offset,
            size: self.size,
            flags: self.flags,
            timestamp: self.timestamp,
            hash: self.hash@,
            uncompressed_size: self.uncompressed_size,
            compression_index: self.compression_index,
            compression_block_size: self.compression_block_size,
            compression_blocks: self.compression_blocks@,
            header_size: self.header_size,
        }
    }

}

/// The compression index a legacy flag word selects, by first-matching-bit
/// priority: the zlib bit, then the gzip bit, then the custom-codec bit.
pub open spec fn legacy_compression_index(w: int) -> int {
    if w % 2 == 1 {
        1
    } else if (w / 2) % 2 == 1 {
        2
    } else if (w / 4) % 2 == 1 {
        3
    } else {
        0
    }
}

/// The compression blocks encoded as `remaining` (start, end) marker pairs
/// at `pos`, appended to `acc`, with the position after them.
pub open spec fn blocks_from(
    s: Seq<u8>,
    pos: int,
    remaining: int,
    acc: Seq<PakCompressionBlock>,
) -> Option<(Seq<PakCompressionBlock>, int)>
    decreases remaining,
{
    if remaining <= 0 {
        Some((acc, pos))
    } else if pos < 0 || pos + 16 > s.len() {
        None
    } else {
        blocks_from(
            s,
            pos + 16,
            remaining - 1,
            acc.push(
                PakCompressionBlock {
                    compression_start: ile64_at(s, pos) as i64,
                    compression_end: ile64_at(s, pos + 8) as i64,
                },
            ),
        )
    }
}

/// One directory entry record at `pos`, under the given version and
/// sub-version: offset, on-disk size and uncompressed size; the compression
/// index (one byte, four bytes, or a legacy flag word by version); a legacy
/// timestamp below version 2; the 20-byte content hash; and, for compressed
/// entries from version 3 on, the block list, a flag byte and the nominal
/// block size. Yields the record and the position after it.
pub open spec fn entry_parse(s: Seq<u8>, pos: int, version: int, sub_version: int) -> Option<
    (PakEntryModel, int),
> {
    if pos < 0 || pos + 24 > s.len() {
        None
    } else {
        let offset = le64_at(s, pos) as u64;
        let size = le64_at(s, pos + 8) as u64;
        let uncompressed_size = le64_at(s, pos + 16) as u64;
        let p1 = pos + 24;
        let ci_width: int = if version >= VERSION_FNAME_BASED_COMPRESSION && sub_version == 1 {
            1
        } else {
            4
        };
        if p1 + ci_width > s.len() {
            None
        } else {
            let ci: int = if version >= VERSION_FNAME_BASED_COMPRESSION {
                if sub_version == 1 {
                    s[p1] as int
                } else {
                    le32_at(s, p1)
                }
            } else {
                legacy_compression_index(le32_at(s, p1))
            };
            let p2 = p1 + ci_width;
            let ts_width: int = if version < VERSION_NO_TIMESTAMPS {
                8
            } else {
                0
            };
            if p2 + ts_width + 20 > s.len() {
                None
            } else {
                let timestamp: u64 = if version < VERSION_NO_TIMESTAMPS {
                    le64_at(s, p2) as u64
                } else {
                    0
                };
                let p3 = p2 + ts_width;
                let hash = s.subrange(p3, p3 + 20);
                let p4 = p3 + 20;
                if version >= VERSION_COMPRESSION_ENCRYPTION && ci != 0 {
                    if p4 + 4 > s.len() {
                        None
                    } else {
                        let bc = ile32_at(s, p4);
                        let p5 = p4 + 4;
                        match blocks_from(s, p5, bc, Seq::empty()) {
                            None => None,
                            Some(bv) => {
                                let p6 = bv.1;
                                if p6 + 5 > s.len() {
                                    None
                                } else {
                                    Some(
                                        (
                                            PakEntryModel {
                                                start: pos as u64,
                                                offset,
                                                size,
                                                flags: s[p6],
                                                timestamp,
                                                hash,
                                                uncompressed_size,
                                                compression_index: ci as u32,
                                                compression_block_size: le32_at(s, p6 + 1) as u32,
                                                compression_blocks: bv.0,
                                                header_size: (p6 + 5 - pos) as u64,
                                            },
                                            p6 + 5,
                                        ),
                                    )
                                }
                            },
                        }
                    }
                } else {
                    Some(
                        (
                            PakEntryModel {
                                start: pos as u64,
                                offset,
                                size,
                                flags: 0,
                                timestamp,
                                hash,
                                uncompressed_size,
                                compression_index: ci as u32,
                                compression_block_size: 0,
                                compression_blocks: Seq::empty(),
                                header_size: (p4 - pos) as u64,
                            },
                            p4,
                        ),
                    )
                }
            }
        }
    }
}

proof fn lemma_blocks_from_step(s: Seq<u8>, pos: int, remaining: int, acc: Seq<PakCompressionBlock>)
    requires
        remaining > 0,
        0 <= pos,
        pos + 16 <= s.len(),
    ensures
        blocks_from(s, pos, remaining, acc) == blocks_from(
            s,
            pos + 16,
            remaining - 1,
            acc.push(
                PakCompressionBlock {
                    compression_start: ile64_at(s, pos) as i64,
                    compression_end: ile64_at(s, pos + 8) as i64,
                },
            ),
        ),
{
}

/// Decode an entry's compression index from the reader's current position:
/// one byte for sub-version 1 of version 8 on, a four-byte index otherwise,
/// read as a legacy flag word below version 8.
fn read_compression_index(reader: &mut PakReader, version: i32, sub_version: i32) -> (r: Result<
    u32,
    PakReaderError,
>)
    requires
        old(reader).wf(),
    ensures
        final(reader).wf(),
        final(reader).data_spec() == old(reader).data_spec(),
        version >= VERSION_FNAME_BASED_COMPRESSION && sub_version == 1 ==> {
            if old(reader).can_read(1) {
                &&& r is Ok
                &&& r->Ok_0 as int == old(reader).data_spec()[old(reader).pos_spec()]
                &&& final(reader).pos_spec() == old(reader).pos_spec() + 1
            } else {
                r == Err::<u32, PakReaderError>(PakReaderError::ReadError)
            }
        },
        version >= VERSION_FNAME_BASED_COMPRESSION && sub_version != 1 ==> {
            if old(reader).can_read(4) {
                &&& r is Ok
                &&& r->Ok_0 as int == le32_at(old(reader).data_spec(), old(reader).pos_spec())
                &&& final(reader).pos_spec() == old(reader).pos_spec() + 4
            } else {
                r == Err::<u32, PakReaderError>(PakReaderError::ReadError)
            }
        },
        version < VERSION_FNAME_BASED_COMPRESSION ==> {
            if old(reader).can_read(4) {
                &&& r is Ok
                &&& r->Ok_0 as int == legacy_compression_index(
                    le32_at(old(reader).data_spec(), old(reader).pos_spec()),
                )
                &&& final(reader).pos_spec() == old(reader).pos_spec() + 4
            } else {
                r == Err::<u32, PakReaderError>(PakReaderError::ReadError)
            }
        },
{
    if version >= VERSION_FNAME_BASED_COMPRESSION {
        if sub_version == 1 {
            match reader.read_u8() {
                Ok(v) => Ok(v as u32),
                Err(e) => Err(e),
            }
        } else {
            reader.read_u32()
        }
    } else {
        let w = match reader.read_u32() {
            Ok(v) => v,
            Err(e) => {
                return Err(e);
            },
        };
        if w % 2 == 1 {
            Ok(1)
        } else if (w / 2) % 2 == 1 {
            Ok(2)
        } else if (w / 4) % 2 == 1 {
            Ok(3)
        } else {
            Ok(0)
        }
    }
}

/// Decode `bc` compression block marker pairs from the reader's current
/// position.
fn read_blocks(reader: &mut PakReader, bc: i32) -> (r: Result<
    Vec<PakCompressionBlock>,
    PakReaderError,
>)
    requires
        old(reader).wf(),
    ensures
        final(reader).wf(),
        final(reader).data_spec() == old(reader).data_spec(),
        match blocks_from(
            old(reader).data_spec(),
            old(reader).pos_spec(),
            bc as int,
            Seq::empty(),
        ) {
            Some(bv) => {
                &&& r is Ok
                &&& r->Ok_0@ == bv.0
                &&& final(reader).pos_spec() == bv.1
                &&& final(reader).pos_spec() >= old(reader).pos_spec()
            },
            None => r == Err::<Vec<PakCompressionBlock>, PakReaderError>(PakReaderError::ReadError),
        },
{
    let ghost s = reader.data_spec();
    let ghost p0 = reader.pos_spec();
    let mut blocks: Vec<PakCompressionBlock> = Vec::new();
    if bc > 0 {
        let mut j: i32 = 0;
        while j < bc
            invariant
                reader.wf(),
                s == old(reader).data_spec(),
                p0 == old(reader).pos_spec(),
                reader.data_spec() == s,
                0 <= j <= bc,
                p0 <= reader.pos_spec(),
                blocks_from(s, p0, bc as int, Seq::empty()) == blocks_from(
                    s,
                    reader.pos_spec(),
                    bc - j,
                    blocks@,
                ),
            decreases bc - j,
        {
            let ghost pi = reader.pos_spec();
            let ghost old_blocks = blocks@;
            let bstart = match reader.read_i64() {
                Ok(v) => v,
                Err(e) => {
                    return Err(e);
                },
            };
            let bend = match reader.read_i64() {
                Ok(v) => v,
                Err(e) => {
                    return Err(e);
                },
            };
            blocks.push(PakCompressionBlock { compression_start: bstart, compression_end: bend });
            proof {
                assert(0 <= le64_at(s, pi) < 0x10000000000000000);
                assert(0 <= le64_at(s, pi + 8) < 0x10000000000000000);
                assert(ile64_at(s, pi) as i64 == bstart);
                assert(ile64_at(s, pi + 8) as i64 == bend);
                assert(blocks@ == old_blocks.push(
                    PakCompressionBlock {
                        compression_start: ile64_at(s, pi) as i64,
                        compression_end: ile64_at(s, pi + 8) as i64,
                    },
                ));
                lemma_blocks_from_step(s, pi, bc - j, old_blocks);
                assert(blocks_from(s, pi, bc - j, old_blocks) == blocks_from(
                    s,
                    pi + 16,
                    bc - j - 1,
                    blocks@,
                ));
            }
            j = j + 1;
        }
    }
    Ok(blocks)
}

/// Decode one directory entry record from the reader's current position.
#[verifier::rlimit(50)]
pub(crate) fn read_pak_entry(reader: &mut PakReader, info: &PakInfo) -> (r: Result<
    PakEntry,
    PakReaderError,
>)
    requires
        old(reader).wf(),
    ensures
        final(reader).wf(),
        final(reader).data_spec() == old(reader).data_spec(),
        match entry_parse(
            old(reader).data_spec(),
            old(reader).pos_spec(),
            info.version as int,
            info.sub_version as int,
        ) {
            Some(v) => {
                &&& r is Ok
                &&& r->Ok_0.model() == v.0
                &&& final(reader).pos_spec() == v.1
            },
            None => r == Err::<PakEntry, PakReaderError>(PakReaderError::ReadError),
        },
{
    let ghost s = reader.data_spec();
    let ghost pos0 = reader.pos_spec();
    let start = reader.position();
    let offset = match reader.read_u64() {
        Ok(v) => v,
        Err(e) => {
            return Err(e);
        },
    };
    let size = match reader.read_u64() {
        Ok(v) => v,
        Err(e) => {
            return Err(e);
        },
    };
    let uncompressed_size = match reader.read_u64() {
        Ok(v) => v,
        Err(e) => {
            return Err(e);
        },
    };

    let compression_index: u32 = match read_compression_index(
        reader,
        info.version,
        info.sub_version,
    ) {
        Ok(v) => v,
        Err(e) => {
            return Err(e);
        },
    };

    let timestamp: u64 = if info.version < VERSION_NO_TIMESTAMPS {
        match reader.read_u64() {
            Ok(v) => v,
            Err(e) => {
                return Err(e);
            },
        }
    } else {
        0
    };

    let hash = match reader.read_bytes(20) {
        Ok(v) => v,
        Err(e) => {
            return Err(e);
        },
    };

    let mut flags: u8 = 0;
    let mut compression_block_size: u32 = 0;
    let mut compression_blocks: Vec<PakCompressionBlock> = Vec::new();

    if info.version >= VERSION_COMPRESSION_ENCRYPTION && compression_index != 0 {
        let bc = match reader.read_i32() {
            Ok(v) => v,
            Err(e) => {
                return Err(e);
            },
        };
        compression_blocks = match read_blocks(reader, bc) {
            Ok(v) => v,
            Err(e) => {
                return Err(e);
            },
        };
        flags = match reader.read_u8() {
            Ok(v) => v,
            Err(e) => {
                return Err(e);
            },
        };
        compression_block_size = match reader.read_u32() {
            Ok(v) => v,
            Err(e) => {
                return Err(e);
            },
        };
    }

    let header_size = (reader.position() - start) as u64;

    let entry = PakEntry {
        start: start as u64,
        offset,
        size,
        flags,
        timestamp,
        hash,
        uncompressed_size,
        compression_index,
        compression_block_size,
        compression_blocks,
        header_size,
    };
    proof {
        let v = entry_parse(s, pos0, info.version as int, info.sub_version as int)->Some_0;
        assert(entry.model() =~= v.0);
    }
    Ok(entry)
}

} // verus!
