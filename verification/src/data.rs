use vstd::prelude::*;
use crate::decomp::{flate_decompress, flate_inflated, zlib_decompress, zlib_inflated};
use crate::entry::{PakCompressionBlock, PakEntry, PakEntryModel};
use crate::errors::PakReaderError;
use crate::reader::PakReader;

verus! {

/// The block's markers delimit a readable range of the archive.
pub open spec fn block_range_ok(data: Seq<u8>, b: PakCompressionBlock) -> bool {
    &&& 0 <= b.compression_start
    &&& b.compression_start <= b.compression_end
    &&& b.compression_end <= data.len()
}

/// How many bytes a block must contribute once inflated, with `done` output
/// bytes already produced: the nominal block size, or whatever is left of
/// the uncompressed size.
pub open spec fn block_expected(us: int, cbs: int, done: int) -> int {
    if done >= us {
        0
    } else if cbs < us - done {
        cbs
    } else {
        us - done
    }
}

/// What the codec a compression index selects yields on `s`.
pub open spec fn codec_inflated(ci: int, s: Seq<u8>) -> Option<Seq<u8>> {
    if ci == 1 {
        zlib_inflated(s)
    } else {
        flate_inflated(s)
    }
}

/// The bytes blocks `i..` of entry `e` contribute, with `done` output bytes
/// already produced: each block's recorded range is read from the archive,
/// inflated with the entry's codec, and must contribute exactly its
/// expected share; the shares must add up to the uncompressed size.
pub open spec fn blocks_out(data: Seq<u8>, e: PakEntryModel, i: int, done: int) -> Option<Seq<u8>>
    decreases e.compression_blocks.len() - i,
{
    if i < 0 || i >= e.compression_blocks.len() {
        if done == e.uncompressed_size {
            Some(Seq::empty())
        } else {
            None
        }
    } else {
        let b = e.compression_blocks[i];
        if !block_range_ok(data, b) {
            None
        } else {
            match codec_inflated(
                e.compression_index as int,
                data.subrange(b.compression_start as int, b.compression_end as int),
            ) {
                None => None,
                Some(d) => {
                    if d.len() != block_expected(
                        e.uncompressed_size as int,
                        e.compression_block_size as int,
                        done,
                    ) {
                        None
                    } else {
                        match blocks_out(data, e, i + 1, done + d.len()) {
                            None => None,
                            Some(rest) => Some(d + rest),
                        }
                    }
                },
            }
        }
    }
}

proof fn lemma_blocks_out_step(data: Seq<u8>, e: PakEntryModel, i: int, done: int)
    requires
        0 <= i < e.compression_blocks.len(),
    ensures
        !block_range_ok(data, e.compression_blocks[i]) ==> blocks_out(data, e, i, done) is None,
        block_range_ok(data, e.compression_blocks[i]) ==> {
            let d = codec_inflated(
                e.compression_index as int,
                data.subrange(
                    e.compression_blocks[i].compression_start as int,
                    e.compression_blocks[i].compression_end as int,
                ),
            );
            match d {
                None => blocks_out(data, e, i, done) is None,
                Some(dd) => {
                    if dd.len() != block_expected(
                        e.uncompressed_size as int,
                        e.compression_block_size as int,
                        done,
                    ) {
                        blocks_out(data, e, i, done) is None
                    } else {
                        blocks_out(data, e, i, done) == (match blocks_out(
                            data,
                            e,
                            i + 1,
                            done + dd.len(),
                        ) {
                            None => None::<Seq<u8>>,
                            Some(rest) => Some(dd + rest),
                        })
                    }
                },
            }
        },
{
}

/// The payload bytes a fetch of entry `e` yields from the archive bytes:
/// the stored bytes verbatim for compression index 0, the re-seamed block
/// contributions for the zlib and gzip codecs, and an unsupported-codec
/// failure for any other index.
pub open spec fn entry_data_of(data: Seq<u8>, e: PakEntryModel) -> Result<Seq<u8>, PakReaderError> {
    let start = e.offset + e.header_size;
    if e.compression_index == 0 {
        if start + e.size <= data.len() {
            Ok(data.subrange(start as int, start + e.size))
        } else {
            Err(PakReaderError::ReadError)
        }
    } else if e.compression_index == 1 || e.compression_index == 2 {
        match blocks_out(data, e, 0, 0) {
            Some(d) => Ok(d),
            None => Err(PakReaderError::ReadError),
        }
    } else {
        Err(PakReaderError::UnsupportedCompression)
    }
}

impl PakReader {
    /// Fetch and reconstruct one entry's payload: stored bytes are read
    /// verbatim, compressed blocks are inflated in order and re-seamed into
    /// one buffer whose length is exactly the entry's uncompressed size.
    pub fn get_pak_entry_data(&mut self, entry: &PakEntry) -> (r: Result<Vec<u8>, PakReaderError>)
        requires
            old(self).wf(),
        ensures
            final(self).wf(),
            final(self).data_spec() == old(self).data_spec(),
            match entry_data_of(old(self).data_spec(), entry.model()) {
                Ok(d) => r is Ok && r->Ok_0@ == d,
                Err(e) => r == Err::<Vec<u8>, PakReaderError>(e),
            },
            r is Ok && entry.model().compression_index == 0 ==> r->Ok_0@ == old(
                self,
            ).data_spec().subrange(
                entry.model().offset + entry.model().header_size,
                entry.model().offset + entry.model().header_size + entry.model().size,
            ),
            r is Ok && entry.model().compression_index != 0 ==> r->Ok_0@.len()
                == entry.model().uncompressed_size,
    {
        let ghost data = self.data_spec();
        let ghost m = entry.model();
        let dlen = self.data_len();
        if entry.compression_index == 0 {
            let target = match entry.offset.checked_add(entry.header_size) {
                Some(t) => t,
                None => {
                    return Err(PakReaderError::ReadError);
                },
            };
            if target > (dlen as u64) {
                return Err(PakReaderError::ReadError);
            }
            self.set_position(target as usize);
            if entry.size > (dlen as u64) {
                return Err(PakReaderError::ReadError);
            }
            match self.read_bytes(entry.size as usize) {
                Ok(v) => Ok(v),
                Err(e) => Err(e),
            }
        } else if entry.compression_index == 1 || entry.compression_index == 2 {
            let mut out: Vec<u8> = Vec::new();
            let mut done: u64 = 0;
            let mut bi: usize = 0;
            let nblocks = entry.compression_blocks.len();
            while bi < nblocks
                invariant
                    self.wf(),
                    self.data_spec() == data,
                    data == old(self).data_spec(),
                    dlen as int == data.len(),
                    m == entry.model(),
                    m.compression_index == 1 || m.compression_index == 2,
                    nblocks == m.compression_blocks.len(),
                    0 <= bi <= nblocks,
                    done == out@.len(),
                    done <= m.uncompressed_size,
                    (blocks_out(data, m, bi as int, done as int) matches Some(rest)
                        ==> blocks_out(data, m, 0, 0) == Some(out@ + rest)),
                    (blocks_out(data, m, bi as int, done as int) is None ==> blocks_out(
                        data,
                        m,
                        0,
                        0,
                    ) is None),
                decreases nblocks - bi,
            {
                proof {
                    lemma_blocks_out_step(data, m, bi as int, done as int);
                }
                let b = entry.compression_blocks[bi];
                if b.compression_start < 0 || b.compression_end < b.compression_start || (
                b.compression_end as u64) > (dlen as u64) {
                    return Err(PakReaderError::ReadError);
                }
                self.set_position(b.compression_start as usize);
                let csize = (b.compression_end - b.compression_start) as usize;
                let comp = match self.read_bytes(csize) {
                    Ok(v) => v,
                    Err(_) => {
                        return Err(PakReaderError::ReadError);
                    },
                };
                let expected: u64 = if done >= entry.uncompressed_size {
                    0
                } else {
                    let rem = entry.uncompressed_size - done;
                    if (entry.compression_block_size as u64) < rem {
                        entry.compression_block_size as u64
                    } else {
                        rem
                    }
                };
                let inflated = if entry.compression_index == 1 {
                    zlib_decompress(comp.as_slice())
                } else {
                    flate_decompress(comp.as_slice())
                };
                let mut d = match inflated {
                    Some(v) => v,
                    None => {
                        return Err(PakReaderError::ReadError);
                    },
                };
                if (d.len() as u64) != expected {
                    return Err(PakReaderError::ReadError);
                }
                let ghost old_out = out@;
                out.append(&mut d);
                done = done + expected;
                bi = bi + 1;
            }
            if done != entry.uncompressed_size {
                return Err(PakReaderError::ReadError);
            }
            proof {
                assert(blocks_out(data, m, nblocks as int, done as int) == Some(
                    Seq::<u8>::empty(),
                ));
                assert(out@ + Seq::<u8>::empty() =~= out@);
            }
            Ok(out)
        } else {
            Err(PakReaderError::UnsupportedCompression)
        }
    }
}

} // verus!
