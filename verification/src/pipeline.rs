//! The record pipeline around the coordinate mapper: context assignment in
//! input order, per-alignment decompression, the reorder buffer that
//! restores input order, and output staging with contig-length fix-up.

use crate::decompress::decompress;
use crate::decompress::count_runs;
use crate::decompress::runs;
use crate::decompress::shift;
use crate::wtdbg2_ctg_lay::format_line;
use crate::wtdbg2_ctg_lay::push_bytes;
use crate::wtdbg2_ctg_lay::spec_format_line;
use crate::wtdbg2_ctg_lay::LayLineView;
use crate::wtdbg2_ctg_lay::LineContext;
use crate::wtdbg2_ctg_lay::Wtdbg2CtgLayLine;
use crate::wtdbg2_ctg_lay::Wtdbg2CtgLayLineWithContext;
use crate::wtdbg2_ctg_lay::NEWLINE;
use vstd::arithmetic::div_mod::lemma_fundamental_div_mod;
use vstd::arithmetic::div_mod::lemma_fundamental_div_mod_converse;
use vstd::pervasive::unreached;
use vstd::prelude::*;
use vstd::slice::slice_subrange;
use vstd::slice::slice_to_vec;

verus! {

/// The `A` base byte.
pub const BASE_A: u8 = 65;

/// The `C` base byte.
pub const BASE_C: u8 = 67;

/// The `G` base byte.
pub const BASE_G: u8 = 71;

/// The `N` base byte.
pub const BASE_N: u8 = 78;

/// The `T` base byte.
pub const BASE_T: u8 = 84;

/// What can go wrong in a pipeline stage.
#[derive(Clone, Copy, PartialEq, Eq, Structural, Debug)]
pub enum PipelineError {
    /// An edge or alignment record arrived while no contig was open.
    ContigNotOpen,
    /// An alignment record arrived while no edge was open.
    EdgeNotOpen,
    /// An alignment's compressed coordinates lie outside its read.
    CoordinatesOutOfRange,
    /// A sequence byte is not one of `A`, `C`, `G`, `T`, `N`.
    UnknownDnaBase,
    /// Two records carry the same context.
    DuplicateContext,
    /// Two contexts that share a scope disagree on its carryover counts.
    CarryoverMismatch,
    /// A record or payload of the wrong shape reached a stage.
    UnexpectedRecord,
    /// A counter, running sum, offset or length does not fit its type.
    ArithmeticOverflow,
}

/// DNA complement: `A` and `T` swap, `C` and `G` swap, `N` stays.
pub open spec fn complement(b: u8) -> u8 {
    if b == BASE_A {
        BASE_T
    } else if b == BASE_T {
        BASE_A
    } else if b == BASE_C {
        BASE_G
    } else if b == BASE_G {
        BASE_C
    } else {
        BASE_N
    }
}

/// A byte the reverse complement accepts.
pub open spec fn is_dna_base(b: u8) -> bool {
    b == BASE_A || b == BASE_C || b == BASE_G || b == BASE_T || b == BASE_N
}

pub open spec fn all_dna(s: Seq<u8>) -> bool {
    forall|i: int| 0 <= i < s.len() ==> is_dna_base(#[trigger] s[i])
}

/// The reverse complement of a DNA byte sequence.
pub open spec fn rev_comp(s: Seq<u8>) -> Seq<u8> {
    Seq::new(s.len(), |i: int| complement(s[s.len() - 1 - i]))
}

/// Reverses and complements a DNA sequence.
pub fn reverse_complement(dna: &[u8]) -> (r: Vec<u8>)
    requires
        all_dna(dna@),
    ensures
        r@ == rev_comp(dna@),
{
    let len = dna.len();
    let mut out: Vec<u8> = Vec::new();
    let mut i: usize = len;
    while i > 0
        invariant
            len == dna@.len(),
            i <= len,
            out@.len() == len - i,
            forall|k: int| 0 <= k < out@.len() ==> out@[k] == complement(dna@[len - 1 - k]),
        decreases i,
    {
        i = i - 1;
        let b = dna[i];
        let c: u8 = if b == BASE_A {
            BASE_T
        } else if b == BASE_T {
            BASE_A
        } else if b == BASE_C {
            BASE_G
        } else if b == BASE_G {
            BASE_C
        } else {
            BASE_N
        };
        out.push(c);
    }
    proof {
        assert(out@ =~= rev_comp(dna@));
    }
    out
}

fn all_bases(s: &[u8]) -> (r: bool)
    ensures
        r == all_dna(s@),
{
    let len = s.len();
    let mut i: usize = 0;
    while i < len
        invariant
            len == s@.len(),
            i <= len,
            forall|k: int| 0 <= k < i ==> is_dna_base(#[trigger] s@[k]),
        decreases len - i,
    {
        let b = s[i];
        if !(b == BASE_A || b == BASE_C || b == BASE_G || b == BASE_T || b == BASE_N) {
            return false;
        }
        i = i + 1;
    }
    true
}

/// The parser's context-advance rule: a contig opens a new scope and
/// freezes the previous contig's counts, an edge opens a new edge scope,
/// an alignment advances within its edge. An edge needs an open contig, an
/// alignment an open contig and edge; an index about to outgrow its type
/// is refused.
pub open spec fn spec_advance_context(ctx: LineContext, line: LayLineView) -> Result<
    LineContext,
    PipelineError,
> {
    match line {
        LayLineView::Contig { name, node_count, length } => {
            if ctx.contig_index >= i64::MAX - 1 {
                Err(PipelineError::ArithmeticOverflow)
            } else {
                Ok(
                    LineContext {
                        contig_index: (ctx.contig_index + 1) as i64,
                        edge_index: -1i64,
                        alignment_index: -1i64,
                        previous_contig_edge_count: if ctx.contig_index == -1 {
                            ctx.previous_contig_edge_count
                        } else {
                            (ctx.edge_index + 1) as i64
                        },
                        previous_edge_alignment_count: if ctx.contig_index == -1 {
                            ctx.previous_edge_alignment_count
                        } else {
                            (ctx.alignment_index + 1) as i64
                        },
                    },
                )
            }
        },
        LayLineView::Edge { offset, from_node, from_direction, to_node, to_direction } => {
            if ctx.contig_index < 0 {
                Err(PipelineError::ContigNotOpen)
            } else if ctx.edge_index >= i64::MAX - 1 {
                Err(PipelineError::ArithmeticOverflow)
            } else {
                Ok(
                    LineContext {
                        contig_index: ctx.contig_index,
                        edge_index: (ctx.edge_index + 1) as i64,
                        alignment_index: -1i64,
                        previous_contig_edge_count: ctx.previous_contig_edge_count,
                        previous_edge_alignment_count: if ctx.edge_index == -1 {
                            ctx.previous_edge_alignment_count
                        } else {
                            (ctx.alignment_index + 1) as i64
                        },
                    },
                )
            }
        },
        LayLineView::Alignment { read_id, direction, offset, length, original_length } => {
            if ctx.contig_index < 0 {
                Err(PipelineError::ContigNotOpen)
            } else if ctx.edge_index < 0 {
                Err(PipelineError::EdgeNotOpen)
            } else if ctx.alignment_index >= i64::MAX - 1 {
                Err(PipelineError::ArithmeticOverflow)
            } else {
                Ok(
                    LineContext {
                        contig_index: ctx.contig_index,
                        edge_index: ctx.edge_index,
                        alignment_index: (ctx.alignment_index + 1) as i64,
                        previous_contig_edge_count: ctx.previous_contig_edge_count,
                        previous_edge_alignment_count: ctx.previous_edge_alignment_count,
                    },
                )
            }
        },
    }
}

/// Advances the parser context over one record, as `spec_advance_context`
/// prescribes.
pub fn advance_context(ctx: &LineContext, line: &Wtdbg2CtgLayLine) -> (r: Result<
    LineContext,
    PipelineError,
>)
    requires
        ctx.wf(),
    ensures
        r matches Ok(c) ==> spec_advance_context(*ctx, line@) == Ok::<LineContext, PipelineError>(
            c,
        ) && c.wf(),
        r matches Err(e) ==> spec_advance_context(*ctx, line@) == Err::<
            LineContext,
            PipelineError,
        >(e),
{
    match line {
        Wtdbg2CtgLayLine::Contig { .. } => {
            if ctx.contig_index >= i64::MAX - 1 {
                return Err(PipelineError::ArithmeticOverflow);
            }
            Ok(
                LineContext {
                    contig_index: ctx.contig_index + 1,
                    edge_index: -1,
                    alignment_index: -1,
                    previous_contig_edge_count: if ctx.contig_index == -1 {
                        ctx.previous_contig_edge_count
                    } else {
                        ctx.edge_index + 1
                    },
                    previous_edge_alignment_count: if ctx.contig_index == -1 {
                        ctx.previous_edge_alignment_count
                    } else {
                        ctx.alignment_index + 1
                    },
                },
            )
        },
        Wtdbg2CtgLayLine::Edge { .. } => {
            if ctx.contig_index < 0 {
                return Err(PipelineError::ContigNotOpen);
            }
            if ctx.edge_index >= i64::MAX - 1 {
                return Err(PipelineError::ArithmeticOverflow);
            }
            Ok(
                LineContext {
                    contig_index: ctx.contig_index,
                    edge_index: ctx.edge_index + 1,
                    alignment_index: -1,
                    previous_contig_edge_count: ctx.previous_contig_edge_count,
                    previous_edge_alignment_count: if ctx.edge_index == -1 {
                        ctx.previous_edge_alignment_count
                    } else {
                        ctx.alignment_index + 1
                    },
                },
            )
        },
        Wtdbg2CtgLayLine::Alignment { .. } => {
            if ctx.contig_index < 0 {
                return Err(PipelineError::ContigNotOpen);
            }
            if ctx.edge_index < 0 {
                return Err(PipelineError::EdgeNotOpen);
            }
            if ctx.alignment_index >= i64::MAX - 1 {
                return Err(PipelineError::ArithmeticOverflow);
            }
            Ok(
                LineContext {
                    contig_index: ctx.contig_index,
                    edge_index: ctx.edge_index,
                    alignment_index: ctx.alignment_index + 1,
                    previous_contig_edge_count: ctx.previous_contig_edge_count,
                    previous_edge_alignment_count: ctx.previous_edge_alignment_count,
                },
            )
        },
    }
}

/// The parser stamps each record with the direct successor of the previous
/// record's context, so records carry strictly increasing contexts in
/// input order.
pub proof fn lemma_advance_context_directly_precedes(
    ctx: LineContext,
    line: LayLineView,
    c: LineContext,
)
    requires
        ctx.wf(),
        // before the first contig the parser cannot have advanced anything
        ctx.contig_index == -1 ==> ctx == LineContext::initial(),
        spec_advance_context(ctx, line) == Ok::<LineContext, PipelineError>(c),
    ensures
        ctx.spec_directly_precedes(c),
        ctx.spec_lt(c),
{
}

/// What the decompressor stage makes of one alignment: coordinates mapped
/// into uncompressed space and the read window as payload, reverse
/// complemented for a backwards alignment.
pub fn decompress_alignment(line: &Wtdbg2CtgLayLine, sequence: &[u8]) -> (r: Result<
    (Wtdbg2CtgLayLine, Vec<u8>),
    PipelineError,
>)
    ensures
        !(line@ matches LayLineView::Alignment { .. }) ==> r == Err::<
            (Wtdbg2CtgLayLine, Vec<u8>),
            PipelineError,
        >(PipelineError::UnexpectedRecord),
        line@ matches LayLineView::Alignment { read_id, direction, offset, length, original_length }
            ==> ({
            let limit = offset + length;
            let so = shift(sequence@, offset as int);
            let sl = shift(sequence@, limit);
            let window = sequence@.subrange(so, sl);
            &&& (r is Ok <==> limit <= usize::MAX && limit <= runs(sequence@) && (direction
                || all_dna(window)))
            &&& (r matches Ok(p) ==> p.0@ == (LayLineView::Alignment {
                read_id,
                direction,
                offset: so as usize,
                length: (sl - so) as usize,
                original_length,
            }) && p.1@ == (if direction {
                window
            } else {
                rev_comp(window)
            }))
            &&& (limit > usize::MAX ==> r == Err::<(Wtdbg2CtgLayLine, Vec<u8>), PipelineError>(
                PipelineError::ArithmeticOverflow,
            ))
            &&& (limit <= usize::MAX && limit > runs(sequence@) ==> r == Err::<
                (Wtdbg2CtgLayLine, Vec<u8>),
                PipelineError,
            >(PipelineError::CoordinatesOutOfRange))
            &&& (limit <= usize::MAX && limit <= runs(sequence@) && !direction && !all_dna(window)
                ==> r == Err::<(Wtdbg2CtgLayLine, Vec<u8>), PipelineError>(
                PipelineError::UnknownDnaBase,
            ))
        }),
{
    match line {
        Wtdbg2CtgLayLine::Alignment { read_id, direction, offset, length, original_length } => {
            if *length > usize::MAX - *offset {
                return Err(PipelineError::ArithmeticOverflow);
            }
            let limit = *offset + *length;
            let nruns = count_runs(sequence);
            if limit > nruns {
                return Err(PipelineError::CoordinatesOutOfRange);
            }
            let (so, sl) = decompress(*offset, limit, sequence);
            let window = slice_subrange(sequence, so, sl);
            let payload: Vec<u8> = if *direction {
                slice_to_vec(window)
            } else {
                if !all_bases(window) {
                    return Err(PipelineError::UnknownDnaBase);
                }
                reverse_complement(window)
            };
            let new_line = Wtdbg2CtgLayLine::Alignment {
                read_id: slice_to_vec(read_id.as_slice()),
                direction: *direction,
                offset: so,
                length: sl - so,
                original_length: *original_length,
            };
            Ok((new_line, payload))
        },
        _ => Err(PipelineError::UnexpectedRecord),
    }
}

/// The view of an optional byte payload.
pub open spec fn opt_bytes_view(p: Option<Vec<u8>>) -> Option<Seq<u8>> {
    match p {
        Some(v) => Some(v@),
        None => None,
    }
}

/// Two contexts name the same record position.
pub open spec fn same_triple(a: LineContext, b: LineContext) -> bool {
    a.contig_index == b.contig_index && a.edge_index == b.edge_index && a.alignment_index
        == b.alignment_index
}

proof fn lemma_lt_trans(a: LineContext, b: LineContext, c: LineContext)
    requires
        a.spec_lt(b),
        b.spec_lt(c),
    ensures
        a.spec_lt(c),
{
}

proof fn lemma_chain_lt(chain: Seq<LineContext>, i: int, j: int)
    requires
        forall|k: int|
            0 <= k < chain.len() - 1 ==> (#[trigger] chain[k]).spec_directly_precedes(
                chain[k + 1],
            ),
        0 <= i < j < chain.len(),
    ensures
        chain[i].spec_lt(chain[j]),
    decreases j - i,
{
    crate::wtdbg2_ctg_lay::lemma_directly_precedes_lt(chain[j - 1], chain[j]);
    if i < j - 1 {
        lemma_chain_lt(chain, i, j - 1);
        lemma_lt_trans(chain[i], chain[j - 1], chain[j]);
    }
}

/// The pipeline's records reach the writer in input order: the sorter
/// releases each record only when its context is the direct successor of
/// the previous one, and any such chain of contexts — which is exactly the
/// order the parser stamped — is strictly increasing.
pub proof fn lemma_released_chain_is_in_input_order(chain: Seq<LineContext>)
    requires
        forall|k: int|
            0 <= k < chain.len() - 1 ==> (#[trigger] chain[k]).spec_directly_precedes(
                chain[k + 1],
            ),
    ensures
        forall|i: int, j: int|
            0 <= i < j < chain.len() ==> (#[trigger] chain[i]).spec_lt(#[trigger] chain[j]),
{
    assert forall|i: int, j: int|
        0 <= i < j < chain.len() implies (#[trigger] chain[i]).spec_lt(
        #[trigger] chain[j],
    ) by {
        lemma_chain_lt(chain, i, j);
    }
}

/// The sorter's buffer: records held back until their context is the
/// direct successor of the last record released, kept sorted by context.
pub struct ReorderBuffer {
    entries: Vec<(Wtdbg2CtgLayLineWithContext, Option<Vec<u8>>)>,
}

impl ReorderBuffer {
    /// The records held, in context order.
    pub closed spec fn models(self) -> Seq<(LineContext, LayLineView, Option<Seq<u8>>)> {
        Seq::new(
            self.entries@.len(),
            |i: int|
                (
                    self.entries@[i].0.context,
                    self.entries@[i].0.line@,
                    opt_bytes_view(self.entries@[i].1),
                ),
        )
    }

    /// The context of the least record held.
    pub closed spec fn first_context(self) -> LineContext {
        self.entries@[0].0.context
    }

    /// All held contexts are well formed and strictly sorted.
    pub closed spec fn wf(self) -> bool {
        &&& forall|i: int|
            0 <= i < self.entries@.len() ==> (#[trigger] self.entries@[i]).0.context.wf()
        &&& forall|i: int, j: int|
            0 <= i < j < self.entries@.len() ==> (#[trigger] self.entries@[i]).0.context.spec_lt(
                (#[trigger] self.entries@[j]).0.context,
            )
    }

    /// A record with this position is already held.
    pub closed spec fn has_position(self, c: LineContext) -> bool {
        exists|i: int|
            0 <= i < self.entries@.len() && same_triple((#[trigger] self.entries@[i]).0.context, c)
    }

    /// The carryover counts of `c` agree with every held context.
    pub closed spec fn agrees_all(self, c: LineContext) -> bool {
        forall|i: int|
            0 <= i < self.entries@.len() ==> c.spec_carryovers_agree(
                (#[trigger] self.entries@[i]).0.context,
            )
    }

    /// An empty buffer.
    pub fn new() -> (r: ReorderBuffer)
        ensures
            r.wf(),
            r.models() == Seq::<(LineContext, LayLineView, Option<Seq<u8>>)>::empty(),
    {
        let r = ReorderBuffer { entries: Vec::new() };
        proof {
            assert(r.models() =~= Seq::<(LineContext, LayLineView, Option<Seq<u8>>)>::empty());
        }
        r
    }

    /// Inserts a record at its place in context order. A context that
    /// disagrees on a carryover count or repeats a held position is an
    /// invariant violation and changes nothing.
    pub fn insert(&mut self, item: Wtdbg2CtgLayLineWithContext, payload: Option<Vec<u8>>) -> (r:
        Result<(), PipelineError>)
        requires
            old(self).wf(),
            item.context.wf(),
        ensures
            final(self).wf(),
            r is Ok <==> old(self).agrees_all(item.context) && !old(self).has_position(
                item.context,
            ),
            !old(self).agrees_all(item.context) ==> r == Err::<(), PipelineError>(
                PipelineError::CarryoverMismatch,
            ),
            old(self).agrees_all(item.context) && old(self).has_position(item.context) ==> r
                == Err::<(), PipelineError>(PipelineError::DuplicateContext),
            r is Err ==> final(self).models() == old(self).models(),
            r is Ok ==> exists|k: int|
                0 <= k <= old(self).models().len() && final(self).models() == old(self).models().insert(k, (item.context, item.line@, opt_bytes_view(payload))),
    {
        let n = self.entries.len();
        let mut k: usize = 0;
        while k < n
            invariant
                *self == *old(self),
                old(self).wf(),
                item.context.wf(),
                n == self.entries@.len(),
                k <= n,
                forall|i: int|
                    0 <= i < k ==> item.context.spec_carryovers_agree(
                        (#[trigger] self.entries@[i]).0.context,
                    ),
            decreases n - k,
        {
            let e = &self.entries[k];
            if !item.context.carryovers_agree(&e.0.context) {
                return Err(PipelineError::CarryoverMismatch);
            }
            k = k + 1;
        }
        let mut k: usize = 0;
        while k < n
            invariant
                *self == *old(self),
                old(self).wf(),
                item.context.wf(),
                n == self.entries@.len(),
                k <= n,
                old(self).agrees_all(item.context),
                forall|i: int|
                    0 <= i < k ==> !same_triple((#[trigger] self.entries@[i]).0.context,
                    item.context),
            decreases n - k,
        {
            let e = &self.entries[k];
            if e.0.context.same_position(&item.context) {
                return Err(PipelineError::DuplicateContext);
            }
            k = k + 1;
        }
        let ghost old_self = *self;
        let mut k: usize = 0;
        while k < n && self.entries[k].0.context.lt(&item.context)
            invariant
                n == self.entries@.len(),
                k <= n,
                *self == *old(self),
                old_self == *old(self),
                old(self).wf(),
                item.context.wf(),
                old(self).agrees_all(item.context),
                !old(self).has_position(item.context),
                forall|i: int|
                    0 <= i < n ==> !same_triple((#[trigger] self.entries@[i]).0.context,
                    item.context),
                forall|i: int|
                    0 <= i < k ==> (#[trigger] self.entries@[i]).0.context.spec_lt(item.context),
            decreases n - k,
        {
            k = k + 1;
        }
        proof {
            if (k as int) < old_self.entries@.len() {
                // trichotomy: neither below nor equal means strictly above
                assert(!same_triple(old_self.entries@[k as int].0.context, item.context));
                assert(item.context.spec_lt(old_self.entries@[k as int].0.context));
            }
        }
        self.entries.insert(k, (item, payload));
        proof {
            let ki = k as int;
            assert forall|i: int|
                0 <= i < self.entries@.len() implies (#[trigger] self.entries@[i]).0.context.wf()
                by {
                if i < ki {
                    assert(old_self.entries@[i] == self.entries@[i]);
                } else if i > ki {
                    assert(old_self.entries@[i - 1] == self.entries@[i]);
                }
            }
            assert forall|i: int, j: int|
                0 <= i < j < self.entries@.len() implies (#[trigger] self.entries@[i]).0.context
                .spec_lt((#[trigger] self.entries@[j]).0.context) by {
                if j == ki {
                    assert(old_self.entries@[i] == self.entries@[i]);
                } else if i == ki {
                    assert(old_self.entries@[j - 1] == self.entries@[j]);
                    if j - 1 > ki {
                        lemma_lt_trans(
                            item.context,
                            old_self.entries@[ki].0.context,
                            old_self.entries@[j - 1].0.context,
                        );
                    }
                } else {
                    let io: int = if i < ki {
                        i
                    } else {
                        i - 1
                    };
                    let jo: int = if j < ki {
                        j
                    } else {
                        j - 1
                    };
                    assert(old_self.entries@[io] == self.entries@[i]);
                    assert(old_self.entries@[jo] == self.entries@[j]);
                }
            }
            assert(self.models() =~= old_self.models().insert(
                ki,
                (item.context, item.line@, opt_bytes_view(payload)),
            ));
        }
        Ok(())
    }

    /// Releases the least record held exactly when its context directly
    /// succeeds `current`; otherwise nothing leaves the buffer.
    pub fn pop_ready(&mut self, current: &LineContext) -> (r: Option<
        (Wtdbg2CtgLayLineWithContext, Option<Vec<u8>>),
    >)
        requires
            old(self).wf(),
            current.wf(),
        ensures
            final(self).wf(),
            r is Some <==> old(self).models().len() > 0 && current.spec_directly_precedes(
                old(self).first_context(),
            ),
            r matches Some(p) ==> p.0.context == old(self).first_context() && p.0.context.wf()
                && current.spec_directly_precedes(p.0.context) && (
            p.0.context,
            p.0.line@,
            opt_bytes_view(p.1),
            ) == old(self).models()[0] && final(self).models() == old(self).models().subrange(
                1,
                old(self).models().len() as int,
            ),
            r is None ==> final(self).models() == old(self).models(),
    {
        if self.entries.len() == 0 {
            return None;
        }
        let first_ctx = self.entries[0].0.context;
        if current.directly_precedes(&first_ctx) {
            let ghost old_self = *self;
            let e = self.entries.remove(0);
            proof {
                assert(self.models() =~= old_self.models().subrange(
                    1,
                    old_self.models().len() as int,
                ));
            }
            Some(e)
        } else {
            None
        }
    }
}

/// The sum of a sequence of edge-offset deltas.
pub open spec fn sum_u64(s: Seq<u64>) -> int
    decreases s.len(),
{
    if s.len() == 0 {
        0
    } else {
        sum_u64(s.drop_last()) + s.last()
    }
}

/// `n / d` rounded half up.
pub open spec fn round_div(n: int, d: int) -> int
    recommends
        d > 0,
{
    (2 * n + d) / (2 * d)
}

/// The rewritten offset delta of an edge: the original delta scaled by the
/// ratio of decompressed to compressed alignment length of the preceding
/// edge, rounded. With no preceding statistics the ratio degenerates: a
/// zero numerator scales to zero, anything else saturates.
pub open spec fn scaled_delta(delta: int, shifted_sum: int, original_sum: int) -> int {
    if original_sum > 0 {
        round_div(delta * shifted_sum, original_sum)
    } else if delta * shifted_sum == 0 {
        0
    } else {
        u64::MAX as int
    }
}

fn round_div_u128(n: u128, d: u128) -> (r: u128)
    requires
        0 < d <= u64::MAX as u128,
    ensures
        r as int == round_div(n as int, d as int),
{
    let q = n / d;
    let rem = n % d;
    proof {
        let ni = n as int;
        let di = d as int;
        lemma_fundamental_div_mod(ni, di);
        let qi = ni / di;
        let ri = ni % di;
        if 2 * ri >= di {
            assert(2 * ni + di == (qi + 1) * (2 * di) + (2 * ri - di)) by (nonlinear_arith)
                requires
                    ni == di * qi + ri,
            ;
            lemma_fundamental_div_mod_converse(2 * ni + di, 2 * di, qi + 1, 2 * ri - di);
        } else {
            assert(2 * ni + di == qi * (2 * di) + (2 * ri + di)) by (nonlinear_arith)
                requires
                    ni == di * qi + ri,
            ;
            lemma_fundamental_div_mod_converse(2 * ni + di, 2 * di, qi, 2 * ri + di);
        }
    }
    if 2 * rem >= d {
        proof {
            if q == u128::MAX {
                assert(d as int * (n as int / d as int) <= n as int);
                assert(d == 1) by (nonlinear_arith)
                    requires
                        d as int * (q as int) <= u128::MAX as int,
                        q as int == u128::MAX as int,
                        d as int >= 1,
                ;
            }
        }
        q + 1
    } else {
        q
    }
}

fn scaled_delta_exec(delta: u64, shifted_sum: u64, original_sum: u64) -> (r: u128)
    ensures
        r as int == scaled_delta(delta as int, shifted_sum as int, original_sum as int),
{
    if original_sum == 0 {
        if delta == 0 || shifted_sum == 0 {
            proof {
                assert(delta as int * shifted_sum as int == 0) by (nonlinear_arith)
                    requires
                        delta as int == 0 || shifted_sum as int == 0,
                ;
            }
            0
        } else {
            proof {
                assert(delta as int * shifted_sum as int > 0) by (nonlinear_arith)
                    requires
                        delta as int > 0,
                        shifted_sum as int > 0,
                ;
            }
            u64::MAX as u128
        }
    } else {
        proof {
            assert(delta as int * shifted_sum as int <= u128::MAX as int) by (nonlinear_arith)
                requires
                    0 <= delta as int <= u64::MAX as int,
                    0 <= shifted_sum as int <= u64::MAX as int,
            ;
        }
        let n = (delta as u128) * (shifted_sum as u128);
        round_div_u128(n, original_sum as u128)
    }
}

fn clone_bytes(v: &Vec<u8>) -> (r: Vec<u8>)
    ensures
        r@ == v@,
{
    slice_to_vec(v.as_slice())
}

/// The header line and staged body emitted when a contig closes: the
/// contig with its length recomputed to `length`, a newline, then the
/// scratch bytes.
pub open spec fn spec_finalized_contig(pending: LayLineView, length: int, scratch: Seq<u8>) -> Seq<
    u8,
>
    recommends
        pending matches LayLineView::Contig { .. },
        0 <= length <= u64::MAX,
{
    match pending {
        LayLineView::Contig { name, node_count, length: _ } => spec_format_line(
            LayLineView::Contig { name, node_count, length: length as u64 },
        ) + seq![NEWLINE] + scratch,
        _ => Seq::empty(),
    }
}

/// The ordered half of the pipeline: per-contig running sums, the edge
/// offset rewrite, output staging, and the deferred contig header.
pub struct OutputStage {
    /// Alignments seen on the current edge.
    pub alignment_count: u64,
    /// Sum of pre-decompression alignment lengths over the current edge.
    pub original_alignment_length_sum: u64,
    /// Sum of decompressed alignment lengths over the current edge.
    pub shifted_alignment_length_sum: u64,
    /// The previous edge's offset in original coordinates.
    pub original_previous_offset: u64,
    /// The previous edge's offset in decompressed coordinates.
    pub shifted_previous_offset: u64,
    /// The last rewritten edge offset of the pending contig.
    pub current_offset: u64,
    /// The running estimate of the last edge's decompressed length.
    pub current_last_edge_length: u64,
    /// The contig header waiting for its recomputed length.
    pub pending: Option<Wtdbg2CtgLayLine>,
    /// The staged records of the pending contig.
    pub scratch: Vec<u8>,
    /// The rewritten offset deltas of the pending contig's edges.
    pub deltas: Ghost<Seq<u64>>,
}

impl OutputStage {
    /// The contig header waiting for its length.
    pub open spec fn pending_view(self) -> Option<LayLineView> {
        match self.pending {
            Some(l) => Some(l@),
            None => None,
        }
    }

    /// The bytes staged for the pending contig.
    pub open spec fn scratch_view(self) -> Seq<u8> {
        self.scratch@
    }

    /// The rewritten offset deltas of the pending contig's edges: the last
    /// rewritten offset is their sum.
    pub open spec fn edge_deltas(self) -> Seq<u64> {
        self.deltas@
    }

    /// A pending record is always a contig header, and the current offset
    /// is the sum of the rewritten edge deltas, which the previous edge's
    /// decompressed offset equals as well.
    pub open spec fn wf(self) -> bool {
        &&& match self.pending {
            Some(l) => l@ matches LayLineView::Contig { .. },
            None => true,
        }
        &&& self.current_offset as int == sum_u64(self.deltas@)
        &&& self.shifted_previous_offset == self.current_offset
    }

    /// The state before any record: everything zero, nothing pending.
    pub fn new() -> (r: OutputStage)
        ensures
            r.wf(),
            r.alignment_count == 0,
            r.original_alignment_length_sum == 0,
            r.shifted_alignment_length_sum == 0,
            r.original_previous_offset == 0,
            r.shifted_previous_offset == 0,
            r.current_offset == 0,
            r.current_last_edge_length == 0,
            r.pending_view() is None,
            r.scratch_view() == Seq::<u8>::empty(),
            r.edge_deltas() == Seq::<u64>::empty(),
    {
        OutputStage {
            alignment_count: 0,
            original_alignment_length_sum: 0,
            shifted_alignment_length_sum: 0,
            original_previous_offset: 0,
            shifted_previous_offset: 0,
            current_offset: 0,
            current_last_edge_length: 0,
            pending: None,
            scratch: Vec::new(),
            deltas: Ghost(Seq::empty()),
        }
    }

    /// Closes the pending contig, if any: its header goes out first with
    /// `length` recomputed as the sum of the rewritten edge deltas plus the
    /// last edge's length estimate, followed by the staged records. The
    /// per-contig staging is then reset.
    pub fn finish(&mut self) -> (r: Result<Option<Vec<u8>>, PipelineError>)
        requires
            old(self).wf(),
        ensures
            final(self).wf(),
            r is Err <==> old(self).pending_view() is Some && old(self).current_offset + old(self).current_last_edge_length > u64::MAX,
            r matches Err(e) ==> e == PipelineError::ArithmeticOverflow && *final(self) == *old(self),
            r is Ok ==> final(self).pending_view() is None && final(self).current_offset == 0
                && final(self).current_last_edge_length == 0 && final(self).shifted_previous_offset
                == 0 && final(self).scratch_view() == Seq::<u8>::empty() && final(self).edge_deltas() == Seq::<u64>::empty() && final(self).alignment_count == old(self).alignment_count && final(self).original_alignment_length_sum == old(self).original_alignment_length_sum && final(self).shifted_alignment_length_sum == old(self).shifted_alignment_length_sum && final(self).original_previous_offset == old(self).original_previous_offset,
            r matches Ok(out) ==> match old(self).pending_view() {
                Some(p) => out matches Some(v) && v@ == spec_finalized_contig(
                    p,
                    sum_u64(old(self).edge_deltas()) + old(self).current_last_edge_length,
                    old(self).scratch_view(),
                ),
                None => out is None,
            },
    {
        let out: Option<Vec<u8>>;
        match &self.pending {
            None => {
                out = None;
            },
            Some(l) => {
                match l {
                    Wtdbg2CtgLayLine::Contig { name, node_count, length: _ } => {
                        if self.current_last_edge_length > u64::MAX - self.current_offset {
                            return Err(PipelineError::ArithmeticOverflow);
                        }
                        let new_length = self.current_offset + self.current_last_edge_length;
                        let header = Wtdbg2CtgLayLine::Contig {
                            name: clone_bytes(name),
                            node_count: *node_count,
                            length: new_length,
                        };
                        let mut v = format_line(&header);
                        v.push(NEWLINE);
                        push_bytes(&mut v, self.scratch.as_slice());
                        proof {
                            assert(v@ =~= spec_finalized_contig(
                                old(self).pending_view()->0,
                                sum_u64(old(self).edge_deltas())
                                    + old(self).current_last_edge_length,
                                old(self).scratch_view(),
                            ));
                        }
                        out = Some(v);
                    },
                    _ => {
                        proof {
                            assert(false);
                        }
                        out = unreached();
                    },
                }
            },
        }
        self.pending = None;
        self.current_offset = 0;
        self.current_last_edge_length = 0;
        self.shifted_previous_offset = 0;
        self.scratch = Vec::new();
        self.deltas = Ghost(Seq::empty());
        Ok(out)
    }

    /// Applies the per-record rules as records arrive in input order: a
    /// contig closes its predecessor and becomes pending; an edge gets its
    /// offset rescaled by the preceding edge's length ratio and is staged;
    /// an alignment feeds the running sums, refreshes the last-edge length
    /// estimate, and is staged with its payload.
    pub fn process(&mut self, line: Wtdbg2CtgLayLine, payload: Option<Vec<u8>>) -> (r: Result<
        Option<Vec<u8>>,
        PipelineError,
    >)
        requires
            old(self).wf(),
        ensures
            final(self).wf(),
            r is Err ==> *final(self) == *old(self),
            line@ matches LayLineView::Contig { .. } ==> {
                &&& (payload is Some ==> r == Err::<Option<Vec<u8>>, PipelineError>(
                    PipelineError::UnexpectedRecord,
                ))
                &&& (r is Ok <==> payload is None && !(old(self).pending_view() is Some && old(self).current_offset + old(self).current_last_edge_length > u64::MAX))
                &&& (payload is None && old(self).pending_view() is Some && old(self).current_offset + old(self).current_last_edge_length > u64::MAX ==> r == Err::<
                    Option<Vec<u8>>,
                    PipelineError,
                >(PipelineError::ArithmeticOverflow))
                &&& (r matches Ok(out) ==> {
                    &&& final(self).pending_view() == Some(line@)
                    &&& final(self).alignment_count == 0
                    &&& final(self).original_alignment_length_sum == 0
                    &&& final(self).shifted_alignment_length_sum == 0
                    &&& final(self).original_previous_offset == 0
                    &&& final(self).shifted_previous_offset == 0
                    &&& final(self).current_offset == 0
                    &&& final(self).current_last_edge_length == 0
                    &&& final(self).scratch_view() == Seq::<u8>::empty()
                    &&& final(self).edge_deltas() == Seq::<u64>::empty()
                    &&& match old(self).pending_view() {
                        Some(p) => out matches Some(v) && v@ == spec_finalized_contig(
                            p,
                            sum_u64(old(self).edge_deltas()) + old(self).current_last_edge_length,
                            old(self).scratch_view(),
                        ),
                        None => out is None,
                    }
                })
            },
            line@ matches LayLineView::Edge {
                offset,
                from_node,
                from_direction,
                to_node,
                to_direction,
            } ==> ({
                let delta = offset - old(self).original_previous_offset;
                let scaled = scaled_delta(
                    delta,
                    old(self).shifted_alignment_length_sum as int,
                    old(self).original_alignment_length_sum as int,
                );
                let new_offset = old(self).shifted_previous_offset + scaled;
                &&& (payload is Some ==> r == Err::<Option<Vec<u8>>, PipelineError>(
                    PipelineError::UnexpectedRecord,
                ))
                &&& (payload is None && old(self).pending_view() is None ==> r == Err::<
                    Option<Vec<u8>>,
                    PipelineError,
                >(PipelineError::ContigNotOpen))
                &&& (payload is None && old(self).pending_view() is Some && delta < 0 ==> r
                    == Err::<Option<Vec<u8>>, PipelineError>(PipelineError::ArithmeticOverflow))
                &&& (payload is None && old(self).pending_view() is Some && delta >= 0
                    && new_offset > u64::MAX ==> r == Err::<Option<Vec<u8>>, PipelineError>(
                    PipelineError::ArithmeticOverflow,
                ))
                &&& (r is Ok <==> payload is None && old(self).pending_view() is Some && delta >= 0
                    && new_offset <= u64::MAX)
                &&& (r matches Ok(out) ==> {
                    &&& out is None
                    &&& final(self).alignment_count == 0
                    &&& final(self).original_alignment_length_sum == 0
                    &&& final(self).shifted_alignment_length_sum == 0
                    &&& final(self).original_previous_offset == offset
                    &&& final(self).shifted_previous_offset == new_offset
                    &&& final(self).current_offset == new_offset
                    &&& final(self).current_last_edge_length == old(self).current_last_edge_length
                    &&& final(self).pending_view() == old(self).pending_view()
                    &&& final(self).edge_deltas() == old(self).edge_deltas().push(scaled as u64)
                    &&& final(self).scratch_view() == old(self).scratch_view() + spec_format_line(
                        LayLineView::Edge {
                            offset: new_offset as u64,
                            from_node,
                            from_direction,
                            to_node,
                            to_direction,
                        },
                    ) + seq![NEWLINE]
                })
            }),
            line@ matches LayLineView::Alignment {
                read_id,
                direction,
                offset,
                length,
                original_length,
            } ==> ({
                let new_count = old(self).alignment_count + 1;
                let new_osum = old(self).original_alignment_length_sum + original_length;
                let new_ssum = old(self).shifted_alignment_length_sum + length;
                let est = round_div(new_ssum, new_count);
                &&& (payload is None ==> r == Err::<Option<Vec<u8>>, PipelineError>(
                    PipelineError::UnexpectedRecord,
                ))
                &&& (payload is Some && old(self).pending_view() is None ==> r == Err::<
                    Option<Vec<u8>>,
                    PipelineError,
                >(PipelineError::ContigNotOpen))
                &&& (payload is Some && old(self).pending_view() is Some && (new_count > u64::MAX
                    || new_osum > u64::MAX || new_ssum > u64::MAX || est > u64::MAX) ==> r
                    == Err::<Option<Vec<u8>>, PipelineError>(PipelineError::ArithmeticOverflow))
                &&& (r is Ok <==> payload is Some && old(self).pending_view() is Some && new_count
                    <= u64::MAX && new_osum <= u64::MAX && new_ssum <= u64::MAX && est
                    <= u64::MAX)
                &&& (r matches Ok(out) ==> {
                    &&& out is None
                    &&& final(self).alignment_count == new_count
                    &&& final(self).original_alignment_length_sum == new_osum
                    &&& final(self).shifted_alignment_length_sum == new_ssum
                    &&& final(self).current_last_edge_length == est
                    &&& final(self).original_previous_offset == old(self).original_previous_offset
                    &&& final(self).shifted_previous_offset == old(self).shifted_previous_offset
                    &&& final(self).current_offset == old(self).current_offset
                    &&& final(self).pending_view() == old(self).pending_view()
                    &&& final(self).edge_deltas() == old(self).edge_deltas()
                    &&& final(self).scratch_view() == old(self).scratch_view() + spec_format_line(
                        line@,
                    ) + opt_bytes_view(payload)->0 + seq![NEWLINE]
                })
            }),
    {
        match &line {
            Wtdbg2CtgLayLine::Contig { .. } => {
                if payload.is_some() {
                    return Err(PipelineError::UnexpectedRecord);
                }
                let out = match self.finish() {
                    Ok(o) => o,
                    Err(e) => {
                        return Err(e);
                    },
                };
                self.alignment_count = 0;
                self.original_alignment_length_sum = 0;
                self.shifted_alignment_length_sum = 0;
                self.original_previous_offset = 0;
                self.pending = Some(line);
                Ok(out)
            },
            Wtdbg2CtgLayLine::Edge { offset, from_node, from_direction, to_node, to_direction } => {
                if payload.is_some() {
                    return Err(PipelineError::UnexpectedRecord);
                }
                if self.pending.is_none() {
                    return Err(PipelineError::ContigNotOpen);
                }
                let offset = *offset;
                if offset < self.original_previous_offset {
                    return Err(PipelineError::ArithmeticOverflow);
                }
                let delta = offset - self.original_previous_offset;
                let scaled = scaled_delta_exec(
                    delta,
                    self.shifted_alignment_length_sum,
                    self.original_alignment_length_sum,
                );
                let prev = self.shifted_previous_offset as u128;
                if scaled > u128::MAX - prev {
                    return Err(PipelineError::ArithmeticOverflow);
                }
                let new_offset_wide = prev + scaled;
                if new_offset_wide > u64::MAX as u128 {
                    return Err(PipelineError::ArithmeticOverflow);
                }
                let new_offset = new_offset_wide as u64;
                let ghost old_self = *old(self);
                self.alignment_count = 0;
                self.original_alignment_length_sum = 0;
                self.shifted_alignment_length_sum = 0;
                self.original_previous_offset = offset;
                self.shifted_previous_offset = new_offset;
                self.current_offset = new_offset;
                let new_line = Wtdbg2CtgLayLine::Edge {
                    offset: new_offset,
                    from_node: clone_bytes(from_node),
                    from_direction: *from_direction,
                    to_node: clone_bytes(to_node),
                    to_direction: *to_direction,
                };
                let formatted = format_line(&new_line);
                push_bytes(&mut self.scratch, formatted.as_slice());
                self.scratch.push(NEWLINE);
                proof {
                    self.deltas@ = old_self.deltas@.push(scaled as u64);
                    assert(self.deltas@.drop_last() =~= old_self.deltas@);
                    assert(self.scratch@ =~= old_self.scratch@ + spec_format_line(
                        new_line@,
                    ) + seq![NEWLINE]);
                }
                Ok(None)
            },
            Wtdbg2CtgLayLine::Alignment { read_id, direction, offset, length, original_length } => {
                let pl = match payload {
                    Some(p) => p,
                    None => {
                        return Err(PipelineError::UnexpectedRecord);
                    },
                };
                if self.pending.is_none() {
                    return Err(PipelineError::ContigNotOpen);
                }
                if self.alignment_count == u64::MAX {
                    return Err(PipelineError::ArithmeticOverflow);
                }
                let olen = *original_length as u64;
                if olen > u64::MAX - self.original_alignment_length_sum {
                    return Err(PipelineError::ArithmeticOverflow);
                }
                let slen = *length as u64;
                if slen > u64::MAX - self.shifted_alignment_length_sum {
                    return Err(PipelineError::ArithmeticOverflow);
                }
                let new_count = self.alignment_count + 1;
                let new_osum = self.original_alignment_length_sum + olen;
                let new_ssum = self.shifted_alignment_length_sum + slen;
                let est_wide = round_div_u128(new_ssum as u128, new_count as u128);
                if est_wide > u64::MAX as u128 {
                    return Err(PipelineError::ArithmeticOverflow);
                }
                let ghost old_self = *old(self);
                self.alignment_count = new_count;
                self.original_alignment_length_sum = new_osum;
                self.shifted_alignment_length_sum = new_ssum;
                self.current_last_edge_length = est_wide as u64;
                let formatted = format_line(&line);
                push_bytes(&mut self.scratch, formatted.as_slice());
                push_bytes(&mut self.scratch, pl.as_slice());
                self.scratch.push(NEWLINE);
                proof {
                    assert(self.scratch@ =~= old_self.scratch@ + spec_format_line(line@) + pl@
                        + seq![NEWLINE]);
                }
                Ok(None)
            },
        }
    }
}

} // verus!
