use vstd::prelude::*;
use crate::errors::PakReaderError;
use crate::reader::{ile32_at, le16_at, PakReader};

verus! {

/// The characters of a narrow (single-byte) run of `n` bytes starting at `i`.
pub open spec fn narrow_chars(s: Seq<u8>, i: int, n: int) -> Seq<char> {
    Seq::new(n as nat, |k: int| s[i + k] as char)
}

/// The character one wide code unit decodes to: units with a non-zero high
/// byte collapse to the sentinel `'$'`.
pub open spec fn wide_char(u: int) -> char {
    if u >= 0x100 {
        '$'
    } else {
        u as char
    }
}

/// The characters of a wide run of `n` two-byte code units starting at `i`.
pub open spec fn wide_chars(s: Seq<u8>, i: int, n: int) -> Seq<char> {
    Seq::new(n as nat, |k: int| wide_char(le16_at(s, i + 2 * k)))
}

/// One length-prefixed string at `pos`: a positive length `L` covers `L - 1`
/// single-byte characters and one terminator byte; a length `L <= 0` covers
/// `-L` two-byte code units. Yields the characters and the position after
/// the string, or nothing when the bytes run out.
pub open spec fn fstring_parse(s: Seq<u8>, pos: int) -> Option<(Seq<char>, int)> {
    if pos + 4 > s.len() {
        None
    } else {
        let l = ile32_at(s, pos);
        if l > 0 {
            if pos + 4 + l > s.len() {
                None
            } else {
                Some((narrow_chars(s, pos + 4, l - 1), pos + 4 + l))
            }
        } else {
            let n = -l;
            if pos + 4 + 2 * n > s.len() {
                None
            } else {
                Some((wide_chars(s, pos + 4, n), pos + 4 + 2 * n))
            }
        }
    }
}

/// Relies on String::push: appends exactly the one given character.
#[verifier::external_body]
pub(crate) fn push_char(s: &mut String, c: char)
    ensures
        final(s)@ == old(s)@.push(c),
{
    s.push(c);
}

/// Build a `String` out of a vector of characters.
pub fn chars_to_string(v: &Vec<char>) -> (r: String)
    ensures
        r@ == v@,
{
    let mut out = String::new();
    let mut i: usize = 0;
    while i < v.len()
        invariant
            i <= v@.len(),
            out@ == v@.take(i as int),
        decreases v@.len() - i,
    {
        push_char(&mut out, v[i]);
        i = i + 1;
        proof {
            assert(out@ =~= v@.take(i as int));
        }
    }
    proof {
        assert(v@.take(v@.len() as int) =~= v@);
    }
    out
}

impl PakReader {
    /// Decode one length-prefixed string at the current position.
    pub fn read_fstring(&mut self) -> (r: Result<String, PakReaderError>)
        requires
            old(self).wf(),
        ensures
            final(self).wf(),
            final(self).data_spec() == old(self).data_spec(),
            fstring_parse(old(self).data_spec(), old(self).pos_spec()) matches Some(v) ==> {
                &&& r is Ok
                &&& r->Ok_0@ == v.0
                &&& final(self).pos_spec() == v.1
            },
            fstring_parse(old(self).data_spec(), old(self).pos_spec()) is None ==> r
                == Err::<String, PakReaderError>(PakReaderError::ReadError),
    {
        match self.read_fstring_chars() {
            Ok(v) => Ok(chars_to_string(&v)),
            Err(e) => Err(e),
        }
    }

    /// Decode one length-prefixed string at the current position, as the
    /// plain sequence of its characters.
    pub fn read_fstring_chars(&mut self) -> (r: Result<Vec<char>, PakReaderError>)
        requires
            old(self).wf(),
        ensures
            final(self).wf(),
            final(self).data_spec() == old(self).data_spec(),
            fstring_parse(old(self).data_spec(), old(self).pos_spec()) matches Some(v) ==> {
                &&& r is Ok
                &&& r->Ok_0@ == v.0
                &&& final(self).pos_spec() == v.1
            },
            fstring_parse(old(self).data_spec(), old(self).pos_spec()) is None ==> r
                == Err::<Vec<char>, PakReaderError>(PakReaderError::ReadError),
    {
        let l = match self.read_i32() {
            Ok(v) => v,
            Err(e) => {
                return Err(e);
            },
        };
        if l > 0 {
            let count: usize = (l - 1) as usize;
            let mut out: Vec<char> = Vec::new();
            let mut k: usize = 0;
            while k < count
                invariant
                    self.wf(),
                    self.data_spec() == old(self).data_spec(),
                    old(self).pos_spec() + 4 <= self.data_spec().len(),
                    l as int == ile32_at(old(self).data_spec(), old(self).pos_spec()),
                    0 < l,
                    count as int == l - 1,
                    k <= count,
                    self.pos_spec() == old(self).pos_spec() + 4 + k,
                    out@ == narrow_chars(old(self).data_spec(), old(self).pos_spec() + 4, k as int),
                decreases count - k,
            {
                let b = match self.read_u8() {
                    Ok(v) => v,
                    Err(e) => {
                        proof {
                            assert(fstring_parse(old(self).data_spec(), old(self).pos_spec())
                                is None);
                        }
                        return Err(e);
                    },
                };
                out.push(b as char);
                k = k + 1;
                proof {
                    assert(out@ =~= narrow_chars(
                        old(self).data_spec(),
                        old(self).pos_spec() + 4,
                        k as int,
                    ));
                }
            }
            // discard the terminator byte without appending it
            match self.read_u8() {
                Ok(_) => {},
                Err(e) => {
                    proof {
                        assert(fstring_parse(old(self).data_spec(), old(self).pos_spec())
                            is None);
                    }
                    return Err(e);
                },
            };
            Ok(out)
        } else {
            let n: u64 = if l == i32::MIN {
                0x80000000u64
            } else {
                (-l) as u64
            };
            let mut out: Vec<char> = Vec::new();
            let mut k: u64 = 0;
            while k < n
                invariant
                    self.wf(),
                    self.data_spec() == old(self).data_spec(),
                    old(self).pos_spec() + 4 <= self.data_spec().len(),
                    l as int == ile32_at(old(self).data_spec(), old(self).pos_spec()),
                    l <= 0,
                    n as int == -(l as int),
                    k <= n,
                    self.pos_spec() == old(self).pos_spec() + 4 + 2 * k,
                    out@ == wide_chars(old(self).data_spec(), old(self).pos_spec() + 4, k as int),
                decreases n - k,
            {
                let u = match self.read_u16() {
                    Ok(v) => v,
                    Err(e) => {
                        proof {
                            assert(fstring_parse(old(self).data_spec(), old(self).pos_spec())
                                is None);
                        }
                        return Err(e);
                    },
                };
                let c: char = if u >= 0x100 {
                    '$'
                } else {
                    (u as u8) as char
                };
                out.push(c);
                k = k + 1;
                proof {
                    assert(out@ =~= wide_chars(
                        old(self).data_spec(),
                        old(self).pos_spec() + 4,
                        k as int,
                    ));
                }
            }
            Ok(out)
        }
    }
}

} // verus!
