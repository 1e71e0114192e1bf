use crate::font::glyph::GlyphInst;
use vstd::prelude::*;

verus! {

broadcast use vstd::seq::group_seq_axioms;

/// The kind of run that the encoder is in the middle of.
#[derive(Clone, Copy, Debug, PartialEq, Eq, Structural)]
pub enum BuilderState {
    /// Transparent pixels (alpha 0).
    Offset,
    /// Translucent pixels, all of the same alpha.
    Translucent(u8),
    /// Opaque pixels (alpha 255).
    Solid,
}

/// The alpha of every pixel of a run in the given state.
pub open spec fn state_value(s: BuilderState) -> u8 {
    match s {
        BuilderState::Offset => 0,
        BuilderState::Translucent(v) => v,
        BuilderState::Solid => 255,
    }
}

/// An instruction that the encoder may emit: a row change, or a run of at least one
/// pixel, translucent runs holding one value strictly between 0 and 255, and single
/// translucent pixels as `Blend`.
pub open spec fn encoded_inst_ok(i: GlyphInst) -> bool {
    match i {
        GlyphInst::NextRow => true,
        GlyphInst::NextNRow(_) => false,
        GlyphInst::XOffset(n) => n >= 1,
        GlyphInst::Solid(n) => n >= 1,
        GlyphInst::Blend(v) => 0 < v < 255,
        GlyphInst::BlendN(v, n) => 0 < v < 255 && n >= 2,
    }
}

/// The state that a pixel of alpha `v` belongs to.
pub open spec fn state_for(v: u8) -> BuilderState {
    if v == 0 {
        BuilderState::Offset
    } else if v == 255 {
        BuilderState::Solid
    } else {
        BuilderState::Translucent(v)
    }
}

/// The instruction for a run of `len` pixels in state `st`.
pub open spec fn run_inst(st: BuilderState, len: u32) -> GlyphInst {
    match st {
        BuilderState::Offset => GlyphInst::XOffset(len),
        BuilderState::Translucent(v) => if len == 1 { GlyphInst::Blend(v) } else { GlyphInst::BlendN(v, len) },
        BuilderState::Solid => GlyphInst::Solid(len),
    }
}

/// `s` without the row changes at its end.
pub open spec fn trim_rows(s: Seq<GlyphInst>) -> Seq<GlyphInst>
    decreases s.len(),
{
    if s.len() > 0 && s.last() == GlyphInst::NextRow {
        trim_rows(s.drop_last())
    } else {
        s
    }
}

/// The kind of run an instruction is, if it is one.
pub open spec fn run_of(i: GlyphInst) -> Option<BuilderState> {
    match i {
        GlyphInst::XOffset(_) => Some(BuilderState::Offset),
        GlyphInst::Solid(_) => Some(BuilderState::Solid),
        GlyphInst::Blend(v) => Some(BuilderState::Translucent(v)),
        GlyphInst::BlendN(v, _) => Some(BuilderState::Translucent(v)),
        _ => None,
    }
}

/// No two neighbouring runs are of the same kind and value: each run is as long as it can be.
pub open spec fn runs_maximal(s: Seq<GlyphInst>) -> bool {
    forall|i: int| 0 <= i < s.len() - 1 ==> (#[trigger] run_of(s[i])) is None || run_of(s[i]) != run_of(s[i + 1])
}

/// `n` copies of `v`.
pub open spec fn repeat(v: u8, n: nat) -> Seq<u8> {
    Seq::new(n, |_k: int| v)
}

/// The pixels that one instruction paints on the current row, transparent ones as 0.
pub open spec fn run_values(i: GlyphInst) -> Seq<u8> {
    match i {
        GlyphInst::XOffset(n) => repeat(0, n as nat),
        GlyphInst::Solid(n) => repeat(255, n as nat),
        GlyphInst::Blend(v) => seq![v],
        GlyphInst::BlendN(v, n) => repeat(v, n as nat),
        _ => Seq::empty(),
    }
}

/// The rows that an instruction stream paints, each from the glyph's left edge; a row ends
/// where its last instruction ends, and what is right of that is transparent.
pub open spec fn decode_rows(s: Seq<GlyphInst>) -> Seq<Seq<u8>>
    decreases s.len(),
{
    if s.len() == 0 {
        seq![Seq::empty()]
    } else {
        let rows = decode_rows(s.drop_last());
        match s.last() {
            GlyphInst::NextRow => rows.push(Seq::empty()),
            GlyphInst::NextNRow(n) => rows + Seq::new(n as nat, |_k: int| Seq::<u8>::empty()),
            _ => rows.update(rows.len() - 1, rows.last() + run_values(s.last())),
        }
    }
}

pub proof fn lemma_decode_rows_nonempty(s: Seq<GlyphInst>)
    ensures
        decode_rows(s).len() >= 1,
    decreases s.len(),
{
    if s.len() > 0 {
        lemma_decode_rows_nonempty(s.drop_last());
    }
}

/// `decoded` is `row` without some transparent pixels at its end.
pub open spec fn same_when_padded(row: Seq<u8>, decoded: Seq<u8>) -> bool {
    &&& decoded.len() <= row.len()
    &&& decoded == row.subrange(0, decoded.len() as int)
    &&& forall|i: int| decoded.len() <= i < row.len() ==> row[i] == 0
}

/// Compresses rows of alpha values into runs of skipped, solid and translucent pixels.
pub struct GlyphInstructionBuilder {
    cmds: Vec<GlyphInst>,
    state: BuilderState,
    state_len: u32,
}

impl GlyphInstructionBuilder {
    /// The rows written so far, the pending run included.
    pub closed spec fn rows(&self) -> Seq<Seq<u8>> {
        let d = decode_rows(self.cmds@);
        d.update(d.len() - 1, d.last() + repeat(state_value(self.state), self.state_len as nat))
    }

    /// The kind of the pending run.
    pub closed spec fn pending_state(&self) -> BuilderState {
        self.state
    }

    /// The pending run is of transparent pixels.
    pub closed spec fn pending_transparent(&self) -> bool {
        self.state == BuilderState::Offset
    }

    /// The number of pixels in the pending run.
    pub closed spec fn pending_len(&self) -> nat {
        self.state_len as nat
    }

    /// The instructions emitted so far, the pending run left out.
    pub closed spec fn emitted(&self) -> Seq<GlyphInst> {
        self.cmds@
    }

    pub closed spec fn wf(&self) -> bool {
        &&& self.wf_core()
        &&& (self.state_len > 0 && self.cmds@.len() > 0 ==> run_of(self.cmds@.last()) != Some(self.state))
        &&& (self.state_len == 0 ==> self.state == BuilderState::Offset && (self.cmds@.len() == 0 || run_of(self.cmds@.last()) is None))
    }

    /// Well formed, but for how the pending run relates to the last instruction.
    closed spec fn wf_core(&self) -> bool {
        &&& runs_maximal(self.cmds@)
        &&& self.state_len <= self.rows().last().len()
        &&& forall|i: int| 0 <= i < self.cmds@.len() ==> encoded_inst_ok(#[trigger] self.cmds@[i])
        &&& (self.state matches BuilderState::Translucent(v) ==> 0 < v < 255)
    }

    pub fn with_capacity(len: usize) -> (r: GlyphInstructionBuilder)
        ensures
            r.wf(),
            r.rows() == seq![Seq::<u8>::empty()],
    {
        let r = GlyphInstructionBuilder {
            cmds: Vec::with_capacity(len),
            state: BuilderState::Offset,
            state_len: 0,
        };
        assert(r.rows() =~= seq![Seq::<u8>::empty()]);
        r
    }

    /// Ends the builder. A row change at the very end is dropped, which changes no pixel.
    pub fn into_glyph_instructions(self) -> (r: Vec<GlyphInst>)
        requires
            self.wf(),
        ensures
            r@ == trim_rows(if self.pending_len() > 0 {
                self.emitted().push(run_inst(self.pending_state(), self.pending_len() as u32))
            } else {
                self.emitted()
            }),
            1 <= decode_rows(r@).len() <= self.rows().len(),
            forall|j: int| 0 <= j < decode_rows(r@).len() ==> #[trigger] decode_rows(r@)[j] == self.rows()[j],
            forall|j: int| decode_rows(r@).len() <= j < self.rows().len() ==> #[trigger] self.rows()[j] == Seq::<u8>::empty(),
            forall|i: int| 0 <= i < r@.len() ==> encoded_inst_ok(#[trigger] r@[i]),
            r@.len() > 0 ==> r@.last() != GlyphInst::NextRow,
            runs_maximal(r@),
    {
        let mut s = self;
        s.emit_state();
        let ghost rows0 = s.rows();
        let mut cmds = s.cmds;
        assert(cmds@ == (if self.pending_len() > 0 {
            self.emitted().push(run_inst(self.pending_state(), self.pending_len() as u32))
        } else {
            self.emitted()
        }));
        proof {
            let d = decode_rows(cmds@);
            lemma_decode_rows_nonempty(cmds@);
            assert(d.last() + repeat(0, 0) =~= d.last());
            assert(d.update(d.len() - 1, d.last()) =~= d);
        }
        assert(decode_rows(cmds@) =~= rows0);
        while cmds.len() > 0 && matches!(cmds[cmds.len() - 1], GlyphInst::NextRow)
            invariant
                1 <= decode_rows(cmds@).len() <= rows0.len(),
                forall|j: int| 0 <= j < decode_rows(cmds@).len() ==> #[trigger] decode_rows(cmds@)[j] == rows0[j],
                forall|j: int| decode_rows(cmds@).len() <= j < rows0.len() ==> #[trigger] rows0[j] == Seq::<u8>::empty(),
                forall|i: int| 0 <= i < cmds@.len() ==> encoded_inst_ok(#[trigger] cmds@[i]),
                runs_maximal(cmds@),
                trim_rows(cmds@) == trim_rows(if self.pending_len() > 0 {
                    self.emitted().push(run_inst(self.pending_state(), self.pending_len() as u32))
                } else {
                    self.emitted()
                }),
            decreases cmds.len(),
        {
            let ghost before = cmds@;
            cmds.pop();
            proof {
                assert(before.drop_last() =~= cmds@);
                assert forall|i: int| 0 <= i < cmds@.len() - 1 implies (#[trigger] run_of(cmds@[i])) is None || run_of(cmds@[i]) != run_of(cmds@[i + 1]) by {
                    assert(cmds@[i] == before[i] && cmds@[i + 1] == before[i + 1]);
                }
                lemma_decode_rows_nonempty(cmds@);
                let db = decode_rows(before);
                let dc = decode_rows(cmds@);
                assert(db == dc.push(Seq::<u8>::empty()));
                assert forall|j: int| 0 <= j < dc.len() implies #[trigger] dc[j] == rows0[j] by {
                    assert(dc[j] == db[j]);
                }
                assert forall|j: int| dc.len() <= j < rows0.len() implies #[trigger] rows0[j] == Seq::<u8>::empty() by {
                    if j == dc.len() {
                        assert(db[j] == rows0[j]);
                    }
                }
            }
        }
        proof {
            if cmds@.len() > 0 {
                assert(cmds@.last() != GlyphInst::NextRow);
            }
        }
        cmds
    }

    /// Adds one pixel of alpha `v` to the current row.
    pub fn next_val(&mut self, v: u8)
        requires
            old(self).wf(),
            old(self).rows().last().len() < u32::MAX,
        ensures
            final(self).wf(),
            final(self).rows() == old(self).rows().update(
                old(self).rows().len() - 1,
                old(self).rows().last().push(v),
            ),
            final(self).pending_state() == state_for(v),
            state_for(v) == old(self).pending_state() ==> final(self).emitted() == old(self).emitted()
                && final(self).pending_len() == old(self).pending_len() + 1,
            state_for(v) != old(self).pending_state() ==> final(self).pending_len() == 1 && final(self).emitted() == (if old(self).pending_len() > 0 {
                old(self).emitted().push(run_inst(old(self).pending_state(), old(self).pending_len() as u32))
            } else {
                old(self).emitted()
            }),
    {
        let ghost r0 = self.rows();
        let next_state = if v == 0 {
            BuilderState::Offset
        } else if v == 255 {
            BuilderState::Solid
        } else {
            BuilderState::Translucent(v)
        };
        if next_state != self.state {
            self.emit_state();
            self.state = next_state;
            self.state_len = 1;
        } else {
            self.state_len = self.state_len + 1;
        }
        proof {
            lemma_decode_rows_nonempty(self.cmds@);
            assert(self.rows().last() =~= r0.last().push(v));
            assert(self.rows() =~= r0.update(r0.len() - 1, r0.last().push(v)));
        }
    }

    /// Ends the current row; transparent pixels at its end are not encoded.
    pub fn next_row(&mut self)
        requires
            old(self).wf(),
        ensures
            final(self).wf(),
            final(self).rows().len() == old(self).rows().len() + 1,
            final(self).rows().last() == Seq::<u8>::empty(),
            final(self).rows().drop_last().drop_last() == old(self).rows().drop_last(),
            same_when_padded(old(self).rows().last(), final(self).rows().drop_last().last()),
            final(self).emitted() == (if !old(self).pending_transparent() && old(self).pending_len() > 0 {
                old(self).emitted().push(run_inst(old(self).pending_state(), old(self).pending_len() as u32))
            } else {
                old(self).emitted()
            }).push(GlyphInst::NextRow),
            final(self).pending_transparent() && final(self).pending_len() == 0,
            final(self).rows().drop_last().last() == (if old(self).pending_transparent() {
                old(self).rows().last().subrange(0, old(self).rows().last().len() - old(self).pending_len())
            } else {
                old(self).rows().last()
            }),
    {
        let ghost r0 = self.rows();
        if self.state != BuilderState::Offset {
            self.emit_state();
        }
        let ghost d = decode_rows(self.cmds@);
        proof {
            lemma_decode_rows_nonempty(self.cmds@);
            if self.state != BuilderState::Offset {
                assert(self.state_len == 0);
            }
            assert(self.rows().last() =~= d.last() + repeat(state_value(self.state), self.state_len as nat));
        }
        let ghost c0 = self.cmds@;
        self.cmds.push(GlyphInst::NextRow);
        self.state = BuilderState::Offset;
        self.state_len = 0;
        proof {
            assert(decode_rows(self.cmds@) == d.push(Seq::empty())) by {
                assert(self.cmds@.drop_last() =~= c0);
            }
            let r1 = self.rows();
            assert(r1 =~= d.push(Seq::empty()));
            assert(r1.drop_last() =~= d);
            assert(r1.drop_last().drop_last() =~= r0.drop_last());
            let full = r0.last();
            let dec = d.last();
            assert(dec =~= full.subrange(0, dec.len() as int));
            if old(self).pending_transparent() {
                assert(dec =~= full.subrange(0, full.len() - old(self).pending_len()));
            } else {
                assert(dec =~= full);
            }
        }
    }

    /// Emits the pending run, if any, as one instruction.
    fn emit_state(&mut self)
        requires
            old(self).wf(),
        ensures
            final(self).wf_core(),
            final(self).rows() == old(self).rows(),
            old(self).state_len == 0 ==> final(self).cmds@ == old(self).cmds@,
            old(self).state_len > 0 ==> final(self).cmds@.len() == old(self).cmds@.len() + 1
                && final(self).cmds@.drop_last() == old(self).cmds@ && run_of(final(self).cmds@.last()) == Some(old(self).state)
                && final(self).cmds@ == old(self).cmds@.push(run_inst(old(self).state, old(self).state_len)),
            final(self).state_len == 0,
            final(self).state == BuilderState::Offset,
    {
        let ghost r0 = self.rows();
        let ghost d0 = decode_rows(self.cmds@);
        proof {
            lemma_decode_rows_nonempty(self.cmds@);
        }
        if self.state_len > 0 {
            let len = self.state_len;
            let inst = match self.state {
                BuilderState::Offset => GlyphInst::XOffset(len),
                BuilderState::Translucent(val) => if len == 1 {
                    GlyphInst::Blend(val)
                } else {
                    GlyphInst::BlendN(val, len)
                },
                BuilderState::Solid => GlyphInst::Solid(len),
            };
            assert(run_values(inst) =~= repeat(state_value(self.state), len as nat));
            let ghost c0 = self.cmds@;
            self.cmds.push(inst);
            assert(self.cmds@.drop_last() =~= old(self).cmds@);
            assert(self.cmds@ =~= old(self).cmds@.push(run_inst(old(self).state, old(self).state_len)));
            assert forall|i: int| 0 <= i < self.cmds@.len() - 1 implies (#[trigger] run_of(self.cmds@[i])) is None || run_of(self.cmds@[i]) != run_of(self.cmds@[i + 1]) by {
                if i < c0.len() - 1 {
                    assert(self.cmds@[i] == c0[i] && self.cmds@[i + 1] == c0[i + 1]);
                } else {
                    assert(self.cmds@[i] == c0.last());
                }
            }
        }
        self.state = BuilderState::Offset;
        self.state_len = 0;
        assert(self.rows() =~= r0);
    }
}

} // verus!
