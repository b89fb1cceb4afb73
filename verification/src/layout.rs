//! The layout-stack builder: base layout algorithms, visual transformers,
//! and their uniform composition into an ordered, cyclable stack.
//!
//! A transformer composes by nesting: it exclusively owns its inner layout
//! and adjusts the geometry that layout produces, without altering the
//! placement algorithm. The builder wraps every base layout with the same
//! transformer chain, so switching the active layout never changes which
//! visual adjustments are in effect.

use vstd::prelude::*;

verus! {

/// Where the main area of a main-and-stack layout sits.
#[derive(Clone, Copy, Debug, PartialEq, Eq, Structural)]
pub enum StackPosition {
    /// Main area on the left, stack on the right.
    Side,
    /// Main area on the right, stack on the left.
    SideMirrored,
    /// Main area on top, stack on the bottom.
    Bottom,
}

/// An unwrapped window-placement algorithm, identified by name and
/// parameters. Ratios are in hundredths (a ratio of `60` means 60%).
#[derive(Clone, Copy, Debug, PartialEq, Eq, Structural)]
pub enum BaseLayout {
    /// A fixed number of main windows beside a stack of the rest.
    MainAndStack {
        /// Where the main area sits.
        position: StackPosition,
        /// The maximum number of windows in the main area.
        max_main: u32,
        /// The share of the screen given to the main area, in hundredths.
        ratio: u32,
        /// The step by which the share changes, in hundredths.
        ratio_step: u32,
    },
    /// The focused window alone, fullscreen.
    Monocle,
}

/// A geometry-adjusting decorator over a layout.
#[derive(Clone, Copy, Debug, PartialEq, Eq, Structural)]
pub enum Transformer {
    /// Insets: a gap around the screen edge and a gap around each window.
    Gaps {
        /// The gap at the screen edge, in pixels.
        outer_px: u32,
        /// The gap around each window, in pixels.
        inner_px: u32,
    },
    /// Subtracts a fixed-height band at the top of the screen.
    ReserveTop {
        /// The height of the reserved band, in pixels.
        px: u32,
    },
}

/// A possibly transformer-wrapped layout. Transformers nest: each one
/// exclusively owns its inner layout.
#[derive(Debug, PartialEq, Eq)]
pub enum WrappedLayout {
    /// An unwrapped base layout.
    Base(BaseLayout),
    /// A transformer applied to an inner layout.
    Wrapped(Transformer, Box<WrappedLayout>),
}

/// The number of transformer wrappers around the base layout.
pub open spec fn wrapper_depth(l: WrappedLayout) -> nat
    decreases l,
{
    match l {
        WrappedLayout::Base(_) => 0,
        WrappedLayout::Wrapped(_, inner) => 1 + wrapper_depth(*inner),
    }
}

/// The layout reached by unwrapping `k` transformer wrappers.
pub open spec fn peel(l: WrappedLayout, k: nat) -> WrappedLayout
    decreases k,
{
    if k == 0 {
        l
    } else {
        match l {
            WrappedLayout::Base(_) => l,
            WrappedLayout::Wrapped(_, inner) => peel(*inner, (k - 1) as nat),
        }
    }
}

/// The total height of the fixed top band the layout reserves: the sum of
/// the `ReserveTop` wrappers around it.
pub open spec fn reserved_top(l: WrappedLayout) -> int
    decreases l,
{
    match l {
        WrappedLayout::Base(_) => 0,
        WrappedLayout::Wrapped(t, inner) => match t {
            Transformer::ReserveTop { px } => px + reserved_top(*inner),
            Transformer::Gaps { .. } => reserved_top(*inner),
        },
    }
}

/// The layout obtained by folding the transformer chain left-to-right over
/// `base`: the first chain element is applied first (innermost), the last
/// element last (outermost).
pub open spec fn wrap_chain(chain: Seq<Transformer>, base: WrappedLayout) -> WrappedLayout
    decreases chain.len(),
{
    if chain.len() == 0 {
        base
    } else {
        WrappedLayout::Wrapped(chain.last(), Box::new(wrap_chain(chain.drop_last(), base)))
    }
}

/// Uniform wrapping adds exactly the chain's length to the wrapper depth.
pub proof fn lemma_wrap_chain_depth(chain: Seq<Transformer>, base: WrappedLayout)
    ensures
        wrapper_depth(wrap_chain(chain, base)) == chain.len() + wrapper_depth(base),
    decreases chain.len(),
{
    if chain.len() > 0 {
        lemma_wrap_chain_depth(chain.drop_last(), base);
    }
}

/// Unwrapping as many wrappers as the chain is long reaches the original
/// base layout again, for every chain and every base.
pub proof fn lemma_wrap_chain_peel(chain: Seq<Transformer>, base: WrappedLayout)
    ensures
        peel(wrap_chain(chain, base), chain.len() as nat) == base,
    decreases chain.len(),
{
    if chain.len() > 0 {
        lemma_wrap_chain_peel(chain.drop_last(), base);
    }
}

/// Wrap one base layout in the whole transformer chain, first element
/// innermost.
pub fn wrap_layout(chain: &Vec<Transformer>, base: BaseLayout) -> (r: WrappedLayout)
    ensures
        r == wrap_chain(chain@, WrappedLayout::Base(base)),
{
    let mut l = WrappedLayout::Base(base);
    let mut i: usize = 0;
    assert(chain@.take(0) =~= Seq::<Transformer>::empty());
    while i < chain.len()
        invariant
            0 <= i <= chain.len(),
            l == wrap_chain(chain@.take(i as int), WrappedLayout::Base(base)),
        decreases chain.len() - i,
    {
        l = WrappedLayout::Wrapped(chain[i], Box::new(l));
        proof {
            assert(chain@.take(i + 1).drop_last() =~= chain@.take(i as int));
            assert(chain@.take(i + 1).last() == chain@[i as int]);
        }
        i = i + 1;
    }
    assert(chain@.take(chain@.len() as int) =~= chain@);
    l
}

/// The total reserved top band of a wrapped layout, saturating at
/// `u64::MAX`.
pub fn reserved_top_px(l: &WrappedLayout) -> (r: u64)
    ensures
        reserved_top(*l) <= u64::MAX ==> r == reserved_top(*l),
        reserved_top(*l) > u64::MAX ==> r == u64::MAX,
    decreases *l,
{
    match l {
        WrappedLayout::Base(_) => 0,
        WrappedLayout::Wrapped(t, inner) => {
            let below = reserved_top_px(inner);
            match t {
                Transformer::ReserveTop { px } => {
                    let band = *px as u64;
                    if below > u64::MAX - band {
                        u64::MAX
                    } else {
                        below + band
                    }
                },
                Transformer::Gaps { .. } => below,
            }
        },
    }
}

/// The reportable startup failure of the layout-stack builder.
#[derive(Clone, Copy, Debug, PartialEq, Eq, Structural)]
pub enum LayoutError {
    /// The base-layout list was empty; at least one layout is required.
    EmptyLayoutList,
}

/// An ordered, non-empty sequence of wrapped layouts with a
/// current-selection index. The selection always stays within bounds;
/// cycling wraps modulo the length.
#[derive(Debug, PartialEq, Eq)]
pub struct LayoutStack {
    layouts: Vec<WrappedLayout>,
    selected: usize,
}

impl LayoutStack {
    /// The ordered layouts of the stack.
    pub closed spec fn layout_seq(&self) -> Seq<WrappedLayout> {
        self.layouts@
    }

    /// The index of the currently selected layout.
    pub closed spec fn selected_index(&self) -> int {
        self.selected as int
    }

    /// The stack invariant: non-empty, selection in bounds.
    pub open spec fn wf(&self) -> bool {
        self.layout_seq().len() > 0 && 0 <= self.selected_index() < self.layout_seq().len()
    }

    /// The number of layouts in the stack.
    pub fn len(&self) -> (n: usize)
        ensures
            n == self.layout_seq().len(),
    {
        self.layouts.len()
    }

    /// The index of the currently selected layout.
    pub fn selected(&self) -> (i: usize)
        ensures
            i == self.selected_index(),
    {
        self.selected
    }

    /// The layout at the given index.
    pub fn get(&self, i: usize) -> (l: &WrappedLayout)
        requires
            i < self.layout_seq().len(),
        ensures
            *l == self.layout_seq()[i as int],
    {
        &self.layouts[i]
    }

    /// The currently selected layout.
    pub fn current(&self) -> (l: &WrappedLayout)
        requires
            self.wf(),
        ensures
            *l == self.layout_seq()[self.selected_index()],
    {
        &self.layouts[self.selected]
    }

    /// Advance the selection to the next layout, wrapping modulo the
    /// stack length. The layouts themselves are unchanged.
    pub fn cycle_next(&mut self)
        requires
            old(self).wf(),
        ensures
            final(self).wf(),
            final(self).layout_seq() == old(self).layout_seq(),
            final(self).selected_index() == (old(self).selected_index() + 1) % (
            old(self).layout_seq().len() as int),
    {
        let n = self.layouts.len();
        if self.selected + 1 < n {
            self.selected = self.selected + 1;
            proof {
                vstd::arithmetic::div_mod::lemma_small_mod(
                    self.selected as nat,
                    self.layouts@.len() as nat,
                );
            }
        } else {
            self.selected = 0;
            proof {
                vstd::arithmetic::div_mod::lemma_mod_self_0(self.layouts@.len() as int);
            }
        }
    }
}

/// Build the layout stack: wrap every base layout, in order, in the same
/// transformer chain, and select the first entry.
///
/// Every element of the built stack has wrapper depth exactly the chain's
/// length, and unwrapping that many times recovers the corresponding base
/// layout; the base layouts' relative order is preserved.
pub fn build_stack(base_layouts: Vec<BaseLayout>, transformer_chain: Vec<Transformer>) -> (r:
    Result<LayoutStack, LayoutError>)
    ensures
        base_layouts@.len() == 0 ==> r == Err::<LayoutStack, LayoutError>(
            LayoutError::EmptyLayoutList,
        ),
        base_layouts@.len() > 0 ==> (r matches Ok(s) && {
            &&& s.wf()
            &&& s.layout_seq().len() == base_layouts@.len()
            &&& s.selected_index() == 0
            &&& forall|i: int|
                0 <= i < base_layouts@.len() ==> s.layout_seq()[i] == wrap_chain(
                    transformer_chain@,
                    WrappedLayout::Base(base_layouts@[i]),
                )
        }),
{
    if base_layouts.len() == 0 {
        return Err(LayoutError::EmptyLayoutList);
    }
    let mut wrapped: Vec<WrappedLayout> = Vec::new();
    let mut i: usize = 0;
    while i < base_layouts.len()
        invariant
            0 <= i <= base_layouts@.len(),
            wrapped@.len() == i,
            forall|j: int|
                0 <= j < i ==> wrapped@[j] == wrap_chain(
                    transformer_chain@,
                    WrappedLayout::Base(base_layouts@[j]),
                ),
        decreases base_layouts.len() - i,
    {
        let l = wrap_layout(&transformer_chain, base_layouts[i]);
        wrapped.push(l);
        i = i + 1;
    }
    Ok(LayoutStack { layouts: wrapped, selected: 0 })
}

/// Every element of a stack built by [`build_stack`] reserves the same
/// top band and carries the same wrapper depth, whatever its base layout:
/// the visual adjustments are decoupled from the placement algorithm.
pub proof fn lemma_uniform_wrapping(base_layouts: Seq<BaseLayout>, chain: Seq<Transformer>, i: int)
    requires
        0 <= i < base_layouts.len(),
    ensures
        wrapper_depth(wrap_chain(chain, WrappedLayout::Base(base_layouts[i]))) == chain.len(),
        peel(wrap_chain(chain, WrappedLayout::Base(base_layouts[i])), chain.len() as nat)
            == WrappedLayout::Base(base_layouts[i]),
        reserved_top(wrap_chain(chain, WrappedLayout::Base(base_layouts[i]))) == chain_reserved(
            chain,
        ),
{
    lemma_wrap_chain_depth(chain, WrappedLayout::Base(base_layouts[i]));
    lemma_wrap_chain_peel(chain, WrappedLayout::Base(base_layouts[i]));
    lemma_wrap_chain_reserved(chain, WrappedLayout::Base(base_layouts[i]));
}

/// The total top band reserved by a transformer chain on its own.
pub open spec fn chain_reserved(chain: Seq<Transformer>) -> int
    decreases chain.len(),
{
    if chain.len() == 0 {
        0
    } else {
        chain_reserved(chain.drop_last()) + match chain.last() {
            Transformer::ReserveTop { px } => px as int,
            Transformer::Gaps { .. } => 0,
        }
    }
}

/// The band a wrapped layout reserves is the chain's own band plus the
/// base's: it does not depend on which placement algorithm is wrapped.
pub proof fn lemma_wrap_chain_reserved(chain: Seq<Transformer>, base: WrappedLayout)
    ensures
        reserved_top(wrap_chain(chain, base)) == chain_reserved(chain) + reserved_top(base),
    decreases chain.len(),
{
    if chain.len() > 0 {
        lemma_wrap_chain_reserved(chain.drop_last(), base);
    }
}

} // verus!
