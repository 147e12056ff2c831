//! The Mach-O load-command list.
//!
//! Load commands follow the fixed header.  Each record declares its own
//! size, so the walker advances by whatever the previous record claimed;
//! every record's eight leading bytes are bounds-checked before they are
//! read.  The spec functions here describe the walk itself — the offset of
//! each record and whether the whole list stays inside the buffer — so the
//! parser's contract can pin down every decoded record.

use vstd::prelude::*;

use super::header::Endianness;
use crate::errors::FileParseError;
use crate::field::Field;
use crate::utils::{
    lemma_be_value_bound, lemma_le_value_bound, lemma_pow256_values, lemma_word_at_bound,
    read_u32_at, span_fits, word_at,
};

verus! {

/// One load command: its type tag and its self-declared size.
#[derive(Debug)]
pub struct LoadCommand {
    pub cmd: Field<u32>,
    pub cmdsize: Field<u32>,
}

/// The record encoded at `off` in `b`.
pub open spec fn lc_spec(b: Seq<u8>, off: int, big: bool) -> LoadCommand {
    LoadCommand {
        cmd: Field { value: word_at(b, off, 4, big) as u32, offset: off as usize, size: 4 },
        cmdsize: Field {
            value: word_at(b, off + 4, 4, big) as u32,
            offset: (off + 4) as usize,
            size: 4,
        },
    }
}

/// The offset of the record that follows the one at `off`.
pub open spec fn lc_step(b: Seq<u8>, off: int, big: bool) -> int {
    off + word_at(b, off + 4, 4, big)
}

/// The first `n` records of the walk that starts at `off`.
pub open spec fn lc_spec_seq(b: Seq<u8>, off: int, n: nat, big: bool) -> Seq<LoadCommand>
    decreases n,
{
    if n == 0 {
        Seq::empty()
    } else {
        seq![lc_spec(b, off, big)] + lc_spec_seq(b, lc_step(b, off, big), (n - 1) as nat, big)
    }
}

/// The offset reached after walking `n` records from `off`.
pub open spec fn lc_end(b: Seq<u8>, off: int, n: nat, big: bool) -> int
    decreases n,
{
    if n == 0 {
        off
    } else {
        lc_step(b, lc_end(b, off, (n - 1) as nat, big), big)
    }
}

/// Whether a walk of `n` records from `off` keeps every record's leading
/// eight bytes inside the buffer.
pub open spec fn lc_walk_ok(b: Seq<u8>, off: int, n: nat, big: bool) -> bool
    decreases n,
{
    if n == 0 {
        true
    } else if off + 8 > b.len() {
        false
    } else {
        lc_walk_ok(b, lc_step(b, off, big), (n - 1) as nat, big)
    }
}

/// Walking `n` records from `off` ends where walking `n - 1` records from
/// the next offset does.
pub proof fn lemma_lc_end_shift(b: Seq<u8>, off: int, n: nat, big: bool)
    requires
        n >= 1,
    ensures
        lc_end(b, off, n, big) == lc_end(b, lc_step(b, off, big), (n - 1) as nat, big),
    decreases n,
{
    let stepped = lc_step(b, off, big);
    if n == 1 {
        assert(lc_end(b, off, 1, big) == lc_step(b, lc_end(b, off, 0, big), big));
        assert(lc_end(b, off, 0, big) == off);
        assert(lc_end(b, stepped, 0, big) == stepped);
    } else {
        lemma_lc_end_shift(b, off, (n - 1) as nat, big);
        assert(lc_end(b, off, n, big) == lc_step(b, lc_end(b, off, (n - 1) as nat, big), big));
        assert(lc_end(b, stepped, (n - 1) as nat, big) == lc_step(
            b,
            lc_end(b, stepped, (n - 2) as nat, big),
            big,
        ));
    }
}

/// Extending the walk by one record appends the record at the walk's end.
pub proof fn lemma_lc_spec_seq_snoc(b: Seq<u8>, off: int, n: nat, big: bool)
    ensures
        lc_spec_seq(b, off, (n + 1) as nat, big) =~= lc_spec_seq(b, off, n, big).push(
            lc_spec(b, lc_end(b, off, n, big), big),
        ),
        lc_spec_seq(b, off, n, big).len() == n,
    decreases n,
{
    let stepped = lc_step(b, off, big);
    if n == 0 {
        assert(lc_spec_seq(b, off, 1, big) == seq![lc_spec(b, off, big)] + lc_spec_seq(
            b,
            stepped,
            0,
            big,
        ));
        assert(lc_spec_seq(b, off, 0, big) =~= Seq::<LoadCommand>::empty());
        assert(lc_spec_seq(b, off, 1, big) =~= Seq::<LoadCommand>::empty().push(
            lc_spec(b, off, big),
        ));
    } else {
        lemma_lc_spec_seq_snoc(b, stepped, (n - 1) as nat, big);
        lemma_lc_end_shift(b, off, n, big);
        assert(lc_spec_seq(b, off, (n + 1) as nat, big) == seq![lc_spec(b, off, big)]
            + lc_spec_seq(b, stepped, n, big));
        assert(lc_spec_seq(b, off, n, big) == seq![lc_spec(b, off, big)] + lc_spec_seq(
            b,
            stepped,
            (n - 1) as nat,
            big,
        ));
        assert(lc_spec_seq(b, off, (n + 1) as nat, big) =~= lc_spec_seq(b, off, n, big).push(
            lc_spec(b, lc_end(b, off, n, big), big),
        ));
    }
}

/// Every offset that the walk reaches is at least where it started.
pub proof fn lemma_lc_end_nonneg(b: Seq<u8>, off: int, n: nat, big: bool)
    requires
        off >= 0,
    ensures
        lc_end(b, off, n, big) >= 0,
    decreases n,
{
    if n > 0 {
        lemma_lc_end_nonneg(b, off, (n - 1) as nat, big);
        let p = lc_end(b, off, (n - 1) as nat, big);
        if big {
            lemma_be_value_bound(b.subrange(p + 4, p + 8));
        } else {
            lemma_le_value_bound(b.subrange(p + 4, p + 8));
        }
    }
}

impl LoadCommand {
    /// Walks `ncmds` self-sized records starting at `offset`.
    ///
    /// Fails with `BufferOverflow`, and only with it, exactly when some
    /// record's leading eight bytes would run past the end of the buffer;
    /// otherwise returns every record of the walk, decoded under
    /// `endianness`.
    pub fn parse_load_commands(
        buffer: &[u8],
        offset: usize,
        ncmds: u32,
        endianness: Endianness,
    ) -> (r: Result<Vec<LoadCommand>, FileParseError>)
        ensures
            r is Ok <==> lc_walk_ok(buffer@, offset as int, ncmds as nat, endianness is Big),
            r matches Err(e) ==> e is BufferOverflow,
            r matches Ok(v) ==> v@ == lc_spec_seq(
                buffer@,
                offset as int,
                ncmds as nat,
                endianness is Big,
            ),
    {
        let big = matches!(endianness, Endianness::Big);
        let len: usize = buffer.len();
        let mut commands: Vec<LoadCommand> = Vec::new();
        let mut cur: u64 = offset as u64;
        let mut i: u32 = 0;
        while i < ncmds
            invariant
                i <= ncmds,
                len == buffer@.len(),
                big == (endianness is Big),
                commands@ == lc_spec_seq(buffer@, offset as int, i as nat, big),
                commands@.len() == i,
                lc_end(buffer@, offset as int, i as nat, big) >= 0,
                ({
                    let e = lc_end(buffer@, offset as int, i as nat, big);
                    if e <= u64::MAX {
                        cur == e
                    } else {
                        cur == u64::MAX
                    }
                }),
                lc_walk_ok(buffer@, offset as int, ncmds as nat, big) <==> lc_walk_ok(
                    buffer@,
                    lc_end(buffer@, offset as int, i as nat, big),
                    (ncmds - i) as nat,
                    big,
                ),
            decreases ncmds - i,
        {
            let ghost e = lc_end(buffer@, offset as int, i as nat, big);
            if !span_fits(len, cur, 8) {
                proof {
                    if e > u64::MAX {
                        assert(e + 8 > len);
                    }
                    assert(!lc_walk_ok(buffer@, e, (ncmds - i) as nat, big));
                }
                return Err(FileParseError::BufferOverflow);
            }
            proof {
                if e > u64::MAX {
                    assert(cur == u64::MAX);
                    assert(cur + 8 <= len);
                    assert(len <= usize::MAX <= u64::MAX);
                    assert(false);
                }
            }
            let base: usize = cur as usize;
            let cmd = Field::new(read_u32_at(buffer, base, big), base, 4);
            let cmdsize = Field::new(read_u32_at(buffer, base + 4, big), base + 4, 4);
            let cs: u32 = cmdsize.value;
            commands.push(LoadCommand { cmd, cmdsize });
            proof {
                lemma_word_at_bound(buffer@, e, 4, big);
                lemma_word_at_bound(buffer@, e + 4, 4, big);
                lemma_pow256_values();
                lemma_lc_spec_seq_snoc(buffer@, offset as int, i as nat, big);
                assert(commands@.last() == lc_spec(buffer@, e, big));
                assert(commands@ =~= lc_spec_seq(buffer@, offset as int, (i + 1) as nat, big));
                lemma_lc_end_nonneg(buffer@, offset as int, (i + 1) as nat, big);
            }
            cur = match cur.checked_add(cs as u64) {
                Some(c) => c,
                None => u64::MAX,
            };
            i = i + 1;
        }
        Ok(commands)
    }
}

} // verus!
