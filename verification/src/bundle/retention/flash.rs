//! The bookkeeping of a retention on NOR flash: bytes go to the flash in
//! whole write units from a base offset on, so they are buffered until a
//! unit is full, and the last unit is padded with the erased value;
//! discarding erases whole erase units. The flash itself is driven by the
//! retention; this session says where and what.

use vstd::prelude::*;

use crate::io::push_all;

verus! {

/// The value of an erased flash byte, used to pad the last write unit.
pub const FLASH_ERASED: u8 = 0xFF;

/// Where the next bytes go on the flash, and the bytes buffered for it.
pub struct FlashLayout {
    base_offset: u32,
    write_offset: u32,
    erase_size: u32,
    write_size: u32,
    write_buf: Vec<u8>,
}

/// The bytes with `n` erased bytes appended.
pub open spec fn padded(s: Seq<u8>, n: nat) -> Seq<u8> {
    s + Seq::new(n, |i: int| FLASH_ERASED)
}

impl FlashLayout {
    pub closed spec fn spec_base_offset(&self) -> u32 {
        self.base_offset
    }

    /// How many bytes went to the flash so far, from the base offset on.
    pub closed spec fn spec_write_offset(&self) -> u32 {
        self.write_offset
    }

    pub closed spec fn spec_erase_size(&self) -> u32 {
        self.erase_size
    }

    pub closed spec fn spec_write_size(&self) -> u32 {
        self.write_size
    }

    /// The bytes buffered for the next write.
    pub closed spec fn spec_buffered(&self) -> Seq<u8> {
        self.write_buf@
    }

    pub fn new(base_offset: u32, erase_size: u32, write_size: u32) -> (r: Self)
        ensures
            r.spec_base_offset() == base_offset,
            r.spec_write_offset() == 0,
            r.spec_erase_size() == erase_size,
            r.spec_write_size() == write_size,
            r.spec_buffered() == Seq::<u8>::empty(),
    {
        FlashLayout {
            base_offset,
            write_offset: 0,
            erase_size,
            write_size,
            write_buf: Vec::with_capacity(write_size as usize),
        }
    }

    /// Where on the flash the retained bytes start.
    pub fn base_offset(&self) -> (r: u32)
        ensures
            r == self.spec_base_offset(),
    {
        self.base_offset
    }

    /// How many bytes went to the flash so far.
    pub fn write_offset(&self) -> (r: u32)
        ensures
            r == self.spec_write_offset(),
    {
        self.write_offset
    }

    /// The bytes buffered for the next write.
    pub fn buffered(&self) -> (r: &[u8])
        ensures
            r@ == self.spec_buffered(),
    {
        self.write_buf.as_slice()
    }

    /// Where the next write goes on the flash; `None` where that position
    /// does not fit the flash's 32-bit addresses.
    pub fn write_position(&self) -> (r: Option<u32>)
        ensures
            match r {
                Some(p) => p == self.spec_base_offset() + self.spec_write_offset(),
                None => self.spec_base_offset() + self.spec_write_offset() > u32::MAX,
            },
    {
        self.base_offset.checked_add(self.write_offset)
    }

    /// Buffer bytes written to the retention.
    pub fn buffer(&mut self, data: &[u8])
        ensures
            final(self).spec_buffered() == old(self).spec_buffered() + data@,
            final(self).spec_write_offset() == old(self).spec_write_offset(),
            final(self).spec_base_offset() == old(self).spec_base_offset(),
            final(self).spec_erase_size() == old(self).spec_erase_size(),
            final(self).spec_write_size() == old(self).spec_write_size(),
    {
        push_all(&mut self.write_buf, data);
    }

    /// How many buffered bytes make whole write units: what goes to the
    /// flash now (nothing when less than one unit is buffered).
    pub fn ready_len(&self) -> (r: usize)
        requires
            self.spec_write_size() > 0,
        ensures
            r as int == (self.spec_buffered().len() as int / self.spec_write_size() as int) * self.spec_write_size(),
            r <= self.spec_buffered().len(),
    {
        let ws = self.write_size as usize;
        let q = self.write_buf.len() / ws;
        proof {
            let l = self.write_buf@.len() as int;
            let w = ws as int;
            assert(q * w <= l) by (nonlinear_arith)
                requires
                    w > 0,
                    l >= 0,
                    q == l / w,
            ;
        }
        let n = q * ws;
        n
    }

    /// The first `len` buffered bytes went to the flash.
    pub fn written(&mut self, len: usize)
        requires
            len <= old(self).spec_buffered().len(),
            old(self).spec_write_offset() + len <= u32::MAX,
        ensures
            final(self).spec_buffered() == old(self).spec_buffered().skip(len as int),
            final(self).spec_write_offset() == old(self).spec_write_offset() + len,
            final(self).spec_base_offset() == old(self).spec_base_offset(),
            final(self).spec_erase_size() == old(self).spec_erase_size(),
            final(self).spec_write_size() == old(self).spec_write_size(),
    {
        let mut rest: Vec<u8> = Vec::new();
        push_all(&mut rest, &self.write_buf.as_slice()[len..self.write_buf.len()]);
        self.write_buf = rest;
        self.write_offset = self.write_offset + len as u32;
    }

    /// Pad the buffered bytes with erased bytes to whole write units.
    pub fn pad(&mut self)
        requires
            old(self).spec_write_size() > 0,
        ensures
            final(self).spec_buffered() == padded(
                old(self).spec_buffered(),
                ((old(self).spec_write_size() - old(self).spec_buffered().len() as int % (
                old(self).spec_write_size() as int)) % (old(self).spec_write_size() as int)) as nat,
            ),
            final(self).spec_buffered().len() as int % (old(self).spec_write_size() as int) == 0,
            final(self).spec_write_offset() == old(self).spec_write_offset(),
            final(self).spec_base_offset() == old(self).spec_base_offset(),
            final(self).spec_erase_size() == old(self).spec_erase_size(),
            final(self).spec_write_size() == old(self).spec_write_size(),
    {
        let ws = self.write_size as usize;
        let ghost l0 = self.write_buf@.len() as int;
        let ghost w = ws as int;
        let ghost need: int = (w - l0 % w) % w;
        proof {
            assert(0 <= l0 % w < w) by (nonlinear_arith)
                requires
                    w > 0,
                    l0 >= 0,
            ;
            assert(0 <= need < w);
            assert((l0 + need) % w == 0) by (nonlinear_arith)
                requires
                    w > 0,
                    l0 >= 0,
                    need == (w - l0 % w) % w,
            ;
        }
        let mut added: usize = 0;
        while self.write_buf.len() % ws != 0
            invariant
                ws > 0,
                ws as int == w,
                w > 0,
                0 <= need < w,
                need == (w - l0 % w) % w,
                added <= need,
                self.write_buf@ == padded(old(self).write_buf@, added as nat),
                l0 == old(self).write_buf@.len(),
                self.write_buf@.len() == l0 + added,
                self.write_size == old(self).write_size,
                self.write_offset == old(self).write_offset,
                self.base_offset == old(self).base_offset,
                self.erase_size == old(self).erase_size,
                (l0 + need) % w == 0,
            decreases need - added,
        {
            proof {
                if added == need {
                    assert((l0 + added) % w == 0);
                }
            }
            self.write_buf.push(FLASH_ERASED);
            added = added + 1;
            proof {
                assert(self.write_buf@ =~= padded(old(self).write_buf@, added as nat));
            }
        }
        proof {
            assert(added == need) by {
                if added < need {
                    assert((l0 + added) % w == 0);
                    assert(false) by (nonlinear_arith)
                        requires
                            w > 0,
                            l0 >= 0,
                            0 <= added < need,
                            need == (w - l0 % w) % w,
                            (l0 + added) % w == 0,
                    ;
                }
            }
        }
    }

    /// Drop the buffered bytes.
    pub fn clear_buffer(&mut self)
        ensures
            final(self).spec_buffered() == Seq::<u8>::empty(),
            final(self).spec_write_offset() == old(self).spec_write_offset(),
            final(self).spec_base_offset() == old(self).spec_base_offset(),
            final(self).spec_erase_size() == old(self).spec_erase_size(),
            final(self).spec_write_size() == old(self).spec_write_size(),
    {
        self.write_buf.clear();
    }

    /// What discarding erases: from the base offset to the end of the last
    /// erase unit written; `None` when nothing was written. `Err` where that
    /// end does not fit the flash's 32-bit addresses.
    pub fn erase_range(&self) -> (r: Result<Option<(u32, u32)>, ()>)
        requires
            self.spec_erase_size() > 0,
        ensures
            ({
                let e = self.spec_erase_size() as int;
                let units = (self.spec_write_offset() as int + e - 1) / e;
                let end = self.spec_base_offset() + units * e;
                match r {
                    Ok(None) => self.spec_write_offset() == 0,
                    Ok(Some((s, t))) => self.spec_write_offset() > 0 && s == self.spec_base_offset() && t == end,
                    Err(()) => self.spec_write_offset() > 0 && end > u32::MAX,
                }
            }),
    {
        let total = self.write_offset;
        if total == 0 {
            return Ok(None);
        }
        let e = self.erase_size as u64;
        let units = (total as u64 + e - 1) / e;
        proof {
            assert(units * e <= total as u64 + e - 1) by (nonlinear_arith)
                requires
                    e > 0,
                    units as int == (total as int + e as int - 1) / (e as int),
            ;
        }
        let end = self.base_offset as u64 + units * e;
        if end > u32::MAX as u64 {
            return Err(());
        }
        Ok(Some((self.base_offset, end as u32)))
    }

    /// The flash was erased: writing starts over at the base offset.
    pub fn erased(&mut self)
        ensures
            final(self).spec_write_offset() == 0,
            final(self).spec_buffered() == old(self).spec_buffered(),
            final(self).spec_base_offset() == old(self).spec_base_offset(),
            final(self).spec_erase_size() == old(self).spec_erase_size(),
            final(self).spec_write_size() == old(self).spec_write_size(),
    {
        self.write_offset = 0;
    }
}

} // verus!
