//! The circuit builder that the Merkle-path gadgets write into.
//!
//! The builder records the circuit as plain data: the constants it defines,
//! the witness connections it makes, and the rows of the non-primitive
//! permutation tables it issues. Expression identifiers are handed out in
//! increasing order, one per constant, public input and exposed permutation
//! output.

use vstd::prelude::*;

verus! {

/// A node of the circuit's expression graph.
#[derive(Clone, Copy, Debug, PartialEq, Eq, Structural)]
pub struct ExprId(pub u32);

/// The canonical circuit target type used across recursive components.
pub type Target = ExprId;

/// A row of a non-primitive operation table.
#[derive(Clone, Copy, Debug, PartialEq, Eq, Structural)]
pub struct NonPrimitiveOpId(pub u32);

/// A slot of the witness table.
#[derive(Clone, Copy, Debug, PartialEq, Eq, Structural)]
pub struct WitnessId(pub u32);

/// The permutation behind a non-primitive permutation table.
#[derive(Clone, Copy, Debug, PartialEq, Eq, Structural)]
pub enum PermFamily {
    Poseidon1,
    Poseidon2,
    Tip5,
}

/// Identifies a non-primitive permutation table: the permutation and its
/// state width in extension-field limbs.
#[derive(Clone, Copy, Debug, PartialEq, Eq, Structural)]
pub struct NpoTypeId {
    pub family: PermFamily,
    pub width_ext: usize,
}

/// The shape of a permutation table, in extension-field limbs: the state
/// width, the rate (absorbed limbs), and the digest length. The capacity is
/// `width - rate`.
#[derive(Clone, Copy, Debug)]
pub struct PermConfig {
    family: PermFamily,
    width_ext: usize,
    rate_ext: usize,
    digest_ext: usize,
}

impl PermConfig {
    #[verifier::type_invariant]
    spec fn inv(self) -> bool {
        self.shape_ok()
    }

    pub closed spec fn spec_family(self) -> PermFamily {
        self.family
    }

    pub closed spec fn spec_width_ext(self) -> nat {
        self.width_ext as nat
    }

    pub closed spec fn spec_rate_ext(self) -> nat {
        self.rate_ext as nat
    }

    pub closed spec fn spec_digest_ext(self) -> nat {
        self.digest_ext as nat
    }

    pub open spec fn spec_capacity_ext(self) -> nat {
        (self.spec_width_ext() - self.spec_rate_ext()) as nat
    }

    /// What every configuration satisfies: a non-empty rate and capacity, and
    /// room for two digests side by side in the state.
    pub open spec fn shape_ok(self) -> bool {
        &&& 0 < self.spec_rate_ext() < self.spec_width_ext()
        &&& 0 < self.spec_digest_ext()
        &&& 2 * self.spec_digest_ext() <= self.spec_width_ext()
        &&& self.spec_width_ext() <= usize::MAX
    }

    pub open spec fn spec_npo_type_id(self) -> NpoTypeId {
        NpoTypeId { family: self.spec_family(), width_ext: self.spec_width_ext() as usize }
    }

    /// The state splits into four capacity-sized chunks (4-to-1 compression).
    pub open spec fn spec_is_arity4_shape(self) -> bool {
        self.spec_width_ext() == 4 * self.spec_capacity_ext()
    }

    /// Builds a configuration, or `None` where the shape is not one that a
    /// permutation table can have.
    pub fn new(family: PermFamily, width_ext: usize, rate_ext: usize, digest_ext: usize) -> (r:
        Option<PermConfig>)
        ensures
            r is Some <==> (0 < rate_ext < width_ext && 0 < digest_ext && 2 * digest_ext
                <= width_ext),
            r matches Some(c) ==> {
                &&& c.spec_family() == family
                &&& c.spec_width_ext() == width_ext
                &&& c.spec_rate_ext() == rate_ext
                &&& c.spec_digest_ext() == digest_ext
            },
    {
        if 0 < rate_ext && rate_ext < width_ext && 0 < digest_ext && digest_ext <= width_ext / 2 {
            Some(PermConfig { family, width_ext, rate_ext, digest_ext })
        } else {
            None
        }
    }

    /// Tip5 over Goldilocks, width 16, rate 10, digest 5.
    pub fn tip5_goldilocks_w16() -> (r: PermConfig)
        ensures
            r.spec_family() == PermFamily::Tip5,
            r.spec_width_ext() == 16,
            r.spec_rate_ext() == 10,
            r.spec_digest_ext() == 5,
    {
        PermConfig { family: PermFamily::Tip5, width_ext: 16, rate_ext: 10, digest_ext: 5 }
    }

    /// Poseidon2 over KoalaBear with base-field limbs, width 32 (rate 24,
    /// capacity 8, digest 8): a 4-to-1 shape.
    pub fn poseidon2_koala_bear_d1_w32() -> (r: PermConfig)
        ensures
            r.spec_family() == PermFamily::Poseidon2,
            r.spec_width_ext() == 32,
            r.spec_rate_ext() == 24,
            r.spec_digest_ext() == 8,
    {
        PermConfig { family: PermFamily::Poseidon2, width_ext: 32, rate_ext: 24, digest_ext: 8 }
    }

    /// Poseidon2 over KoalaBear with degree-4 extension limbs, width 32 base
    /// elements, i.e. 8 limbs (rate 6, capacity 2, digest 2): a 4-to-1 shape.
    pub fn poseidon2_koala_bear_d4_w32() -> (r: PermConfig)
        ensures
            r.spec_family() == PermFamily::Poseidon2,
            r.spec_width_ext() == 8,
            r.spec_rate_ext() == 6,
            r.spec_digest_ext() == 2,
    {
        PermConfig { family: PermFamily::Poseidon2, width_ext: 8, rate_ext: 6, digest_ext: 2 }
    }

    pub fn family(&self) -> (r: PermFamily)
        ensures
            r == self.spec_family(),
            self.shape_ok(),
    {
        proof {
            use_type_invariant(self);
        }
        self.family
    }

    pub fn width_ext(&self) -> (r: usize)
        ensures
            r == self.spec_width_ext(),
            self.shape_ok(),
    {
        proof {
            use_type_invariant(self);
        }
        self.width_ext
    }

    pub fn rate_ext(&self) -> (r: usize)
        ensures
            r == self.spec_rate_ext(),
            self.shape_ok(),
    {
        proof {
            use_type_invariant(self);
        }
        self.rate_ext
    }

    pub fn digest_ext(&self) -> (r: usize)
        ensures
            r == self.spec_digest_ext(),
            self.shape_ok(),
    {
        proof {
            use_type_invariant(self);
        }
        self.digest_ext
    }

    pub fn capacity_ext(&self) -> (r: usize)
        ensures
            r == self.spec_capacity_ext(),
            self.shape_ok(),
    {
        proof {
            use_type_invariant(self);
        }
        self.width_ext - self.rate_ext
    }

    pub fn is_arity4_shape(&self) -> (r: bool)
        ensures
            r == self.spec_is_arity4_shape(),
            self.shape_ok(),
    {
        proof {
            use_type_invariant(self);
        }
        let capacity = self.width_ext - self.rate_ext;
        capacity <= usize::MAX / 4 && self.width_ext == 4 * capacity
    }

    pub fn npo_type_id(&self) -> (r: NpoTypeId)
        ensures
            r == self.spec_npo_type_id(),
            self.shape_ok(),
    {
        proof {
            use_type_invariant(self);
        }
        NpoTypeId { family: self.family, width_ext: self.width_ext }
    }
}

/// One call of a permutation table: which state limbs are fed from
/// expressions, which outputs are exposed, and the Merkle-path controls.
#[derive(Debug)]
pub struct PermCall {
    /// Starts a new sponge/Merkle chain (the state is not chained from the
    /// previous row).
    pub new_start: bool,
    /// The row takes part in a Merkle-path chain.
    pub merkle_path: bool,
    /// Low direction bit of the Merkle step.
    pub mmcs_bit: Option<ExprId>,
    /// High direction bit of a 4-to-1 Merkle step.
    pub mmcs_bit2: Option<ExprId>,
    /// Input limbs; `None` leaves the limb to the chain or to private data.
    pub inputs: Vec<Option<ExprId>>,
    /// Output limbs exposed to the witness table.
    pub out_ctl: Vec<bool>,
    /// Exposes every output limb.
    pub return_all_outputs: bool,
    /// Expression holding the running Merkle index, where one is tracked.
    pub mmcs_index_sum: Option<ExprId>,
}

#[verifier::ext_equal]
pub ghost struct PermCallView {
    pub new_start: bool,
    pub merkle_path: bool,
    pub mmcs_bit: Option<ExprId>,
    pub mmcs_bit2: Option<ExprId>,
    pub inputs: Seq<Option<ExprId>>,
    pub out_ctl: Seq<bool>,
    pub return_all_outputs: bool,
    pub mmcs_index_sum: Option<ExprId>,
}

impl View for PermCall {
    type V = PermCallView;

    open spec fn view(&self) -> PermCallView {
        PermCallView {
            new_start: self.new_start,
            merkle_path: self.merkle_path,
            mmcs_bit: self.mmcs_bit,
            mmcs_bit2: self.mmcs_bit2,
            inputs: self.inputs@,
            out_ctl: self.out_ctl@,
            return_all_outputs: self.return_all_outputs,
            mmcs_index_sum: self.mmcs_index_sum,
        }
    }
}

/// A recorded row of a permutation table.
#[derive(Debug)]
pub struct PermRow {
    pub op_id: NonPrimitiveOpId,
    pub config: PermConfig,
    pub call: PermCall,
    /// One entry per state limb: the expression of an exposed output.
    pub outputs: Vec<Option<ExprId>>,
}

#[verifier::ext_equal]
pub ghost struct PermRowView {
    pub op_id: NonPrimitiveOpId,
    pub config: PermConfig,
    pub call: PermCallView,
    pub outputs: Seq<Option<ExprId>>,
}

impl View for PermRow {
    type V = PermRowView;

    open spec fn view(&self) -> PermRowView {
        PermRowView {
            op_id: self.op_id,
            config: self.config,
            call: self.call@,
            outputs: self.outputs@,
        }
    }
}

/// Errors of the circuit builder.
#[derive(Clone, Copy, Debug, PartialEq, Eq, Structural)]
pub enum CircuitBuilderError {
    /// A list of expressions has the wrong length.
    InvalidDimension { expected: usize, actual: usize },
    /// A permutation row did not expose an output that the gadget needs.
    MalformedNonPrimitiveOutputs { op_id: NonPrimitiveOpId },
    /// The permutation configuration does not fit the gadget.
    Poseidon2ConfigMismatch { mismatch: ConfigMismatch },
    /// The permutation table has not been enabled on this builder.
    NonPrimitiveOpNotEnabled { op: NpoTypeId },
}

/// How a permutation configuration fails to fit a gadget.
#[derive(Clone, Copy, Debug, PartialEq, Eq, Structural)]
pub enum ConfigMismatch {
    /// A 4-to-1 Merkle step needs `width_ext == 4 * capacity_ext`.
    Arity4Shape { width_ext: usize, capacity_ext: usize },
    /// A 4-to-1 Merkle path needs at least one level.
    NoMerkleLevels,
    /// The leaf must fit in one absorption (`leaf_len <= rate_ext`).
    LeafExceedsRate { leaf_len: usize, rate_ext: usize },
}

/// Errors of circuit-level data checks.
#[derive(Clone, Copy, Debug, PartialEq, Eq, Structural)]
pub enum CircuitError {
    /// The private data handed to a non-primitive operation has the wrong size.
    IncorrectNonPrimitiveOpPrivateDataSize { op: NpoTypeId, expected_at_most: usize, got: usize },
    /// Matrix heights that round up to the same power of two differ.
    InconsistentMatrixHeights,
}

/// Whether output limb `j` of a call is exposed.
pub open spec fn exposes(call: PermCallView, j: int) -> bool {
    call.return_all_outputs || (0 <= j < call.out_ctl.len() && call.out_ctl[j])
}

/// How many of the output limbs `0..k` a call exposes.
pub open spec fn exposed_count(call: PermCallView, k: int) -> nat
    decreases k,
{
    if k <= 0 {
        0
    } else {
        exposed_count(call, k - 1) + if exposes(call, k - 1) {
            1nat
        } else {
            0nat
        }
    }
}

/// The outputs that a call of width `w` receives when the builder's next
/// free expression is `base`: exposed limbs get consecutive fresh
/// expressions, the others `None`.
pub open spec fn allocated_outputs(base: nat, call: PermCallView, w: nat) -> Seq<Option<ExprId>> {
    Seq::new(
        w,
        |j: int|
            if exposes(call, j) {
                Some(ExprId((base + exposed_count(call, j)) as u32))
            } else {
                None
            },
    )
}

pub proof fn lemma_exposed_count_mono(call: PermCallView, a: int, b: int)
    requires
        a <= b,
    ensures
        exposed_count(call, a) <= exposed_count(call, b),
        exposed_count(call, b) <= exposed_count(call, a) + (b - a),
    decreases b - a,
{
    if a < b {
        lemma_exposed_count_mono(call, a, b - 1);
    }
}

/// A call that exposes none of the limbs `0..k` allocates nothing there.
pub proof fn lemma_exposed_count_none(call: PermCallView, k: int)
    requires
        forall|j: int| 0 <= j < k ==> !exposes(call, j),
    ensures
        exposed_count(call, k) == 0,
    decreases k,
{
    if k > 0 {
        lemma_exposed_count_none(call, k - 1);
    }
}

/// A call that exposes exactly the limbs `0..g` (of `k >= g`) allocates `g`
/// expressions there.
pub proof fn lemma_exposed_count_prefix(call: PermCallView, g: int, k: int)
    requires
        0 <= g <= k,
        forall|j: int| 0 <= j < k ==> (exposes(call, j) <==> j < g),
    ensures
        exposed_count(call, k) == g,
    decreases k,
{
    if k > g {
        lemma_exposed_count_prefix(call, g, k - 1);
    } else if k > 0 {
        lemma_exposed_count_prefix(call, g - 1, k - 1);
    }
}

/// The circuit as recorded so far.
#[verifier::ext_equal]
pub ghost struct BuilderView {
    /// The next free expression identifier.
    pub num_exprs: nat,
    /// Constants, with the expression that holds each.
    pub constants: Seq<(ExprId, u64)>,
    /// Witness connections (the two expressions must be equal).
    pub connections: Seq<(ExprId, ExprId)>,
    /// Permutation rows, in the order issued; row `t` has op id `t`.
    pub rows: Seq<PermRowView>,
    /// The permutation tables that may be used.
    pub enabled: Seq<NpoTypeId>,
    /// Public inputs, in allocation order.
    pub public_inputs: Seq<ExprId>,
}

impl BuilderView {
    /// Room for `k` more expressions.
    pub open spec fn has_room(self, k: nat) -> bool {
        self.num_exprs + k <= u32::MAX
    }

    /// Room for `k` more permutation rows.
    pub open spec fn has_row_room(self, k: nat) -> bool {
        self.rows.len() + k <= u32::MAX
    }
}

/// Builds a circuit: constants, public inputs, connections and permutation
/// rows. Constants take their canonical `u64` representative in the field.
pub struct CircuitBuilder {
    next_expr: u32,
    constants: Vec<(ExprId, u64)>,
    connections: Vec<(ExprId, ExprId)>,
    rows: Vec<PermRow>,
    enabled: Vec<NpoTypeId>,
    public_inputs: Vec<ExprId>,
}

impl View for CircuitBuilder {
    type V = BuilderView;

    closed spec fn view(&self) -> BuilderView {
        BuilderView {
            num_exprs: self.next_expr as nat,
            constants: self.constants@,
            connections: self.connections@,
            rows: self.rows@.map_values(|r: PermRow| r@),
            enabled: self.enabled@,
            public_inputs: self.public_inputs@,
        }
    }
}

impl CircuitBuilder {
    /// An empty circuit with no permutation table enabled.
    pub fn new() -> (r: CircuitBuilder)
        ensures
            r@.num_exprs == 0,
            r@.constants.len() == 0,
            r@.connections.len() == 0,
            r@.rows.len() == 0,
            r@.enabled.len() == 0,
            r@.public_inputs.len() == 0,
    {
        let r = CircuitBuilder {
            next_expr: 0,
            constants: Vec::new(),
            connections: Vec::new(),
            rows: Vec::new(),
            enabled: Vec::new(),
            public_inputs: Vec::new(),
        };
        proof {
            assert(r@.rows =~= Seq::<PermRowView>::empty());
        }
        r
    }

    /// Enables the permutation table of `config`.
    pub fn enable_perm(&mut self, config: PermConfig)
        ensures
            final(self)@ == (BuilderView {
                enabled: if old(self)@.enabled.contains(config.spec_npo_type_id()) {
                    old(self)@.enabled
                } else {
                    old(self)@.enabled.push(config.spec_npo_type_id())
                },
                ..old(self)@
            }),
    {
        let id = config.npo_type_id();
        if !self.is_enabled(id) {
            self.enabled.push(id);
        }
    }

    /// Whether the table `op` is enabled.
    pub fn is_enabled(&self, op: NpoTypeId) -> (r: bool)
        ensures
            r == self@.enabled.contains(op),
    {
        let mut i: usize = 0;
        while i < self.enabled.len()
            invariant
                i <= self.enabled.len(),
                forall|k: int| 0 <= k < i ==> self.enabled@[k] != op,
            decreases self.enabled.len() - i,
        {
            if self.enabled[i] == op {
                proof {
                    assert(self@.enabled[i as int] == op);
                }
                return true;
            }
            i = i + 1;
        }
        false
    }

    /// Allocates a public input.
    pub fn public_input(&mut self) -> (r: ExprId)
        requires
            old(self)@.has_room(1),
        ensures
            r == ExprId(old(self)@.num_exprs as u32),
            final(self)@ == (BuilderView {
                num_exprs: old(self)@.num_exprs + 1,
                public_inputs: old(self)@.public_inputs.push(r),
                ..old(self)@
            }),
    {
        let r = ExprId(self.next_expr);
        self.next_expr = self.next_expr + 1;
        self.public_inputs.push(r);
        r
    }

    /// Defines a constant; `value` is its canonical representative.
    pub fn define_const(&mut self, value: u64) -> (r: ExprId)
        requires
            old(self)@.has_room(1),
        ensures
            r == ExprId(old(self)@.num_exprs as u32),
            final(self)@ == (BuilderView {
                num_exprs: old(self)@.num_exprs + 1,
                constants: old(self)@.constants.push((r, value)),
                ..old(self)@
            }),
    {
        let r = ExprId(self.next_expr);
        self.next_expr = self.next_expr + 1;
        self.constants.push((r, value));
        r
    }

    /// Requires the two expressions to be equal.
    pub fn connect(&mut self, a: ExprId, b: ExprId)
        ensures
            final(self)@ == (BuilderView {
                connections: old(self)@.connections.push((a, b)),
                ..old(self)@
            }),
    {
        self.connections.push((a, b));
    }

    /// Issues a row of the permutation table of `config`. Fails where the
    /// table is not enabled, where the call does not give exactly one input
    /// entry per state limb, or where it marks more outputs than there are
    /// limbs; the builder is then unchanged. Otherwise the row gets the next
    /// op id and each exposed output limb a fresh expression.
    pub fn add_perm(&mut self, config: PermConfig, call: PermCall) -> (r: Result<
        (NonPrimitiveOpId, Vec<Option<ExprId>>),
        CircuitBuilderError,
    >)
        requires
            old(self)@.has_room(exposed_count(call@, config.spec_width_ext() as int)),
            old(self)@.has_row_room(1),
        ensures
            !old(self)@.enabled.contains(config.spec_npo_type_id()) ==> r == Err::<
                (NonPrimitiveOpId, Vec<Option<ExprId>>),
                CircuitBuilderError,
            >(
                CircuitBuilderError::NonPrimitiveOpNotEnabled { op: config.spec_npo_type_id() },
            ),
            old(self)@.enabled.contains(config.spec_npo_type_id()) && call.inputs.len()
                != config.spec_width_ext() ==> r == Err::<
                (NonPrimitiveOpId, Vec<Option<ExprId>>),
                CircuitBuilderError,
            >(
                CircuitBuilderError::InvalidDimension {
                    expected: config.spec_width_ext() as usize,
                    actual: call.inputs.len(),
                },
            ),
            old(self)@.enabled.contains(config.spec_npo_type_id()) && call.inputs.len()
                == config.spec_width_ext() && call.out_ctl.len() > config.spec_width_ext() ==> r
                == Err::<(NonPrimitiveOpId, Vec<Option<ExprId>>), CircuitBuilderError>(
                CircuitBuilderError::InvalidDimension {
                    expected: config.spec_width_ext() as usize,
                    actual: call.out_ctl.len(),
                },
            ),
            r is Err ==> final(self)@ == old(self)@,
            r is Ok <==> (old(self)@.enabled.contains(config.spec_npo_type_id())
                && call.inputs.len() == config.spec_width_ext() && call.out_ctl.len()
                <= config.spec_width_ext()),
            r matches Ok((op_id, outputs)) ==> {
                let outs = allocated_outputs(
                    old(self)@.num_exprs,
                    call@,
                    config.spec_width_ext(),
                );
                &&& op_id == NonPrimitiveOpId(old(self)@.rows.len() as u32)
                &&& outputs@ == outs
                &&& final(self)@ == (BuilderView {
                    num_exprs: old(self)@.num_exprs + exposed_count(
                        call@,
                        config.spec_width_ext() as int,
                    ),
                    rows: old(self)@.rows.push(
                        PermRowView { op_id, config, call: call@, outputs: outs },
                    ),
                    ..old(self)@
                })
            },
    {
        let width = config.width_ext();
        if !self.is_enabled(config.npo_type_id()) {
            return Err(
                CircuitBuilderError::NonPrimitiveOpNotEnabled { op: config.npo_type_id() },
            );
        }
        if call.inputs.len() != width {
            return Err(
                CircuitBuilderError::InvalidDimension { expected: width, actual: call.inputs.len() },
            );
        }
        if call.out_ctl.len() > width {
            return Err(
                CircuitBuilderError::InvalidDimension {
                    expected: width,
                    actual: call.out_ctl.len(),
                },
            );
        }
        let ghost base = self.next_expr as nat;
        let mut outputs: Vec<Option<ExprId>> = Vec::new();
        let mut recorded: Vec<Option<ExprId>> = Vec::new();
        let mut next = self.next_expr;
        let mut j: usize = 0;
        while j < width
            invariant
                j <= width,
                width == config.spec_width_ext(),
                call.out_ctl.len() <= width,
                base + exposed_count(call@, width as int) <= u32::MAX,
                next == base + exposed_count(call@, j as int),
                outputs@ =~= allocated_outputs(base, call@, width as nat).subrange(0, j as int),
                recorded@ == outputs@,
            decreases width - j,
        {
            proof {
                lemma_exposed_count_mono(call@, j + 1, width as int);
            }
            let exposed = call.return_all_outputs || (j < call.out_ctl.len() && call.out_ctl[j]);
            if exposed {
                outputs.push(Some(ExprId(next)));
                recorded.push(Some(ExprId(next)));
                next = next + 1;
            } else {
                outputs.push(None);
                recorded.push(None);
            }
            j = j + 1;
        }
        let op_id = NonPrimitiveOpId(self.rows.len() as u32);
        let ghost call_view = call@;
        let ghost outs = outputs@;
        let row = PermRow { op_id, config, call, outputs: recorded };
        self.rows.push(row);
        self.next_expr = next;
        proof {
            assert(outputs@ =~= allocated_outputs(base, call_view, width as nat));
            assert(self@.rows =~= old(self)@.rows.push(
                PermRowView { op_id, config, call: call_view, outputs: outs },
            ));
        }
        Ok((op_id, outputs))
    }

    /// The recorded permutation rows.
    pub fn rows(&self) -> (r: &Vec<PermRow>)
        ensures
            r@.map_values(|x: PermRow| x@) == self@.rows,
    {
        &self.rows
    }

    /// The recorded connections.
    pub fn connections(&self) -> (r: &Vec<(ExprId, ExprId)>)
        ensures
            r@ == self@.connections,
    {
        &self.connections
    }

    /// The recorded constants.
    pub fn constants(&self) -> (r: &Vec<(ExprId, u64)>)
        ensures
            r@ == self@.constants,
    {
        &self.constants
    }

    /// The public inputs, in allocation order.
    pub fn public_inputs(&self) -> (r: &Vec<ExprId>)
        ensures
            r@ == self@.public_inputs,
    {
        &self.public_inputs
    }
}

} // verus!
