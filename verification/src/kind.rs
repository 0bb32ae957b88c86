//! The task kinds a device program runs, and what each one carries.
use vstd::prelude::*;

verus! {

/// A workgroup scratch region a device module stages data through.
#[derive(Clone, Copy, PartialEq, Eq, Debug, Hash, Structural)]
pub enum Scratch {
    Staging,
    Reduction,
    Choice,
    Attention,
}

pub open spec fn scratch_name(s: Scratch) -> Seq<char> {
    match s {
        Scratch::Staging => "staging"@,
        Scratch::Reduction => "reduction"@,
        Scratch::Choice => "choice"@,
        Scratch::Attention => "attention"@,
    }
}

impl Scratch {
    /// Every scratch region.
    pub fn all() -> (r: Vec<Scratch>)
        ensures
            r@ == seq![Scratch::Staging, Scratch::Reduction, Scratch::Choice, Scratch::Attention],
    {
        vec![Scratch::Staging, Scratch::Reduction, Scratch::Choice, Scratch::Attention]
    }

    pub fn name(self) -> (r: &'static str)
        ensures
            r@ == scratch_name(self),
    {
        match self {
            Scratch::Staging => "staging",
            Scratch::Reduction => "reduction",
            Scratch::Choice => "choice",
            Scratch::Attention => "attention",
        }
    }
}
/// A device module a task kind links.
#[derive(Clone, Copy, PartialEq, Eq, Debug, Hash, Structural)]
pub enum Module {
    Matmul,
    MatmulTiles,
    Attention,
    Reduce,
    Softmax,
    Choice,
    Select,
    Conv,
    Scatter,
    Layout,
    Pool,
    Convert,
}

pub open spec fn module_name(m: Module) -> Seq<char> {
    match m {
        Module::Matmul => "matmul"@,
        Module::MatmulTiles => "matmul_tiles"@,
        Module::Attention => "attention"@,
        Module::Reduce => "reduce"@,
        Module::Softmax => "softmax"@,
        Module::Choice => "choice"@,
        Module::Select => "select"@,
        Module::Conv => "conv"@,
        Module::Scatter => "scatter"@,
        Module::Layout => "layout"@,
        Module::Pool => "pool"@,
        Module::Convert => "convert"@,
    }
}

/// The scratch regions a device module stages data through.
pub open spec fn module_scratch(m: Module) -> Seq<Scratch> {
    match m {
        Module::MatmulTiles => seq![Scratch::Staging],
        Module::Attention => seq![Scratch::Attention],
        Module::Reduce => seq![Scratch::Reduction],
        Module::Choice => seq![Scratch::Choice],
        _ => Seq::empty(),
    }
}

impl Module {
    /// Every device module.
    pub fn all() -> (r: Vec<Module>)
        ensures
            r@.len() == 12,
    {
        vec![
            Module::Matmul,
            Module::MatmulTiles,
            Module::Attention,
            Module::Reduce,
            Module::Softmax,
            Module::Choice,
            Module::Select,
            Module::Conv,
            Module::Scatter,
            Module::Layout,
            Module::Pool,
            Module::Convert,
        ]
    }

    pub fn name(self) -> (r: &'static str)
        ensures
            r@ == module_name(self),
    {
        match self {
            Module::Matmul => "matmul",
            Module::MatmulTiles => "matmul_tiles",
            Module::Attention => "attention",
            Module::Reduce => "reduce",
            Module::Softmax => "softmax",
            Module::Choice => "choice",
            Module::Select => "select",
            Module::Conv => "conv",
            Module::Scatter => "scatter",
            Module::Layout => "layout",
            Module::Pool => "pool",
            Module::Convert => "convert",
        }
    }

    /// The scratch regions this module stages data through.
    pub fn scratch(self) -> (r: Vec<Scratch>)
        ensures
            r@ == module_scratch(self),
    {
        match self {
            Module::MatmulTiles => vec![Scratch::Staging],
            Module::Attention => vec![Scratch::Attention],
            Module::Reduce => vec![Scratch::Reduction],
            Module::Choice => vec![Scratch::Choice],
            _ => Vec::new(),
        }
    }
}

/// How a task kind lays its work over workgroups.
#[derive(Clone, Copy, PartialEq, Eq, Debug, Hash, Structural)]
pub enum Geometry {
    Plain,
    Product,
    Attention,
    Strategy,
}
/// A task kind a device program runs.
#[derive(Clone, Copy, PartialEq, Eq, Debug, Hash, Structural)]
pub enum Kind {
    Matmul,
    MatmulFold,
    Attention,
    AttentionQueryGrad,
    AttentionKeyGrad,
    AttentionValueGrad,
    Binary,
    Unary,
    Partial,
    Fill,
    Broadcast,
    Layout,
    SumChunk,
    SumAxis,
    Softmax,
    SoftmaxGrad,
    LogSoftmax,
    LogSoftmaxGrad,
    Argmax,
    Categorical,
    OneHot,
    Gather,
    Scatter,
    ScatterWrite,
    Convert,
    Conv2d,
    Conv2dInputGrad,
    Conv2dWeightGrad,
    PoolMax2d,
    PoolMax2dInputGrad,
    PoolMean2d,
    PoolMean2dInputGrad,
}
pub const MATMUL: u32 = 0;
pub const MATMUL_FOLD: u32 = 1;
pub const ATTENTION: u32 = 2;
pub const ATTENTION_QUERY_GRAD: u32 = 3;
pub const ATTENTION_KEY_GRAD: u32 = 4;
pub const ATTENTION_VALUE_GRAD: u32 = 5;
pub const BINARY: u32 = 6;
pub const UNARY: u32 = 7;
pub const PARTIAL: u32 = 8;
pub const FILL: u32 = 9;
pub const BROADCAST: u32 = 10;
pub const LAYOUT: u32 = 11;
pub const SUM_CHUNK: u32 = 12;
pub const SUM_AXIS: u32 = 13;
pub const SOFTMAX: u32 = 14;
pub const SOFTMAX_GRAD: u32 = 15;
pub const LOG_SOFTMAX: u32 = 16;
pub const LOG_SOFTMAX_GRAD: u32 = 17;
pub const ARGMAX: u32 = 18;
pub const CATEGORICAL: u32 = 19;
pub const ONE_HOT: u32 = 20;
pub const GATHER: u32 = 21;
pub const SCATTER: u32 = 22;
pub const SCATTER_WRITE: u32 = 23;
pub const CONVERT: u32 = 24;
pub const CONV2D: u32 = 25;
pub const CONV2D_INPUT_GRAD: u32 = 26;
pub const CONV2D_WEIGHT_GRAD: u32 = 27;
pub const POOL_MAX2D: u32 = 28;
pub const POOL_MAX2D_INPUT_GRAD: u32 = 29;
pub const POOL_MEAN2D: u32 = 30;
pub const POOL_MEAN2D_INPUT_GRAD: u32 = 31;

pub open spec fn kind_code(k: Kind) -> nat {
    match k {
        Kind::Matmul => 0,
        Kind::MatmulFold => 1,
        Kind::Attention => 2,
        Kind::AttentionQueryGrad => 3,
        Kind::AttentionKeyGrad => 4,
        Kind::AttentionValueGrad => 5,
        Kind::Binary => 6,
        Kind::Unary => 7,
        Kind::Partial => 8,
        Kind::Fill => 9,
        Kind::Broadcast => 10,
        Kind::Layout => 11,
        Kind::SumChunk => 12,
        Kind::SumAxis => 13,
        Kind::Softmax => 14,
        Kind::SoftmaxGrad => 15,
        Kind::LogSoftmax => 16,
        Kind::LogSoftmaxGrad => 17,
        Kind::Argmax => 18,
        Kind::Categorical => 19,
        Kind::OneHot => 20,
        Kind::Gather => 21,
        Kind::Scatter => 22,
        Kind::ScatterWrite => 23,
        Kind::Convert => 24,
        Kind::Conv2d => 25,
        Kind::Conv2dInputGrad => 26,
        Kind::Conv2dWeightGrad => 27,
        Kind::PoolMax2d => 28,
        Kind::PoolMax2dInputGrad => 29,
        Kind::PoolMean2d => 30,
        Kind::PoolMean2dInputGrad => 31,
    }
}

pub open spec fn kind_of(code: nat) -> Kind {
    if code == 0 {
        Kind::Matmul
    } else if code == 1 {
        Kind::MatmulFold
    } else if code == 2 {
        Kind::Attention
    } else if code == 3 {
        Kind::AttentionQueryGrad
    } else if code == 4 {
        Kind::AttentionKeyGrad
    } else if code == 5 {
        Kind::AttentionValueGrad
    } else if code == 6 {
        Kind::Binary
    } else if code == 7 {
        Kind::Unary
    } else if code == 8 {
        Kind::Partial
    } else if code == 9 {
        Kind::Fill
    } else if code == 10 {
        Kind::Broadcast
    } else if code == 11 {
        Kind::Layout
    } else if code == 12 {
        Kind::SumChunk
    } else if code == 13 {
        Kind::SumAxis
    } else if code == 14 {
        Kind::Softmax
    } else if code == 15 {
        Kind::SoftmaxGrad
    } else if code == 16 {
        Kind::LogSoftmax
    } else if code == 17 {
        Kind::LogSoftmaxGrad
    } else if code == 18 {
        Kind::Argmax
    } else if code == 19 {
        Kind::Categorical
    } else if code == 20 {
        Kind::OneHot
    } else if code == 21 {
        Kind::Gather
    } else if code == 22 {
        Kind::Scatter
    } else if code == 23 {
        Kind::ScatterWrite
    } else if code == 24 {
        Kind::Convert
    } else if code == 25 {
        Kind::Conv2d
    } else if code == 26 {
        Kind::Conv2dInputGrad
    } else if code == 27 {
        Kind::Conv2dWeightGrad
    } else if code == 28 {
        Kind::PoolMax2d
    } else if code == 29 {
        Kind::PoolMax2dInputGrad
    } else if code == 30 {
        Kind::PoolMean2d
    } else {
        Kind::PoolMean2dInputGrad
    }
}
pub open spec fn kind_symbol(k: Kind) -> Seq<char> {
    match k {
        Kind::Matmul => "kind::MATMUL"@,
        Kind::MatmulFold => "kind::MATMUL_FOLD"@,
        Kind::Attention => "kind::ATTENTION"@,
        Kind::AttentionQueryGrad => "kind::ATTENTION_QUERY_GRAD"@,
        Kind::AttentionKeyGrad => "kind::ATTENTION_KEY_GRAD"@,
        Kind::AttentionValueGrad => "kind::ATTENTION_VALUE_GRAD"@,
        Kind::Binary => "kind::BINARY"@,
        Kind::Unary => "kind::UNARY"@,
        Kind::Partial => "kind::PARTIAL"@,
        Kind::Fill => "kind::FILL"@,
        Kind::Broadcast => "kind::BROADCAST"@,
        Kind::Layout => "kind::LAYOUT"@,
        Kind::SumChunk => "kind::SUM_CHUNK"@,
        Kind::SumAxis => "kind::SUM_AXIS"@,
        Kind::Softmax => "kind::SOFTMAX"@,
        Kind::SoftmaxGrad => "kind::SOFTMAX_GRAD"@,
        Kind::LogSoftmax => "kind::LOG_SOFTMAX"@,
        Kind::LogSoftmaxGrad => "kind::LOG_SOFTMAX_GRAD"@,
        Kind::Argmax => "kind::ARGMAX"@,
        Kind::Categorical => "kind::CATEGORICAL"@,
        Kind::OneHot => "kind::ONE_HOT"@,
        Kind::Gather => "kind::GATHER"@,
        Kind::Scatter => "kind::SCATTER"@,
        Kind::ScatterWrite => "kind::SCATTER_WRITE"@,
        Kind::Convert => "kind::CONVERT"@,
        Kind::Conv2d => "kind::CONV2D"@,
        Kind::Conv2dInputGrad => "kind::CONV2D_INPUT_GRAD"@,
        Kind::Conv2dWeightGrad => "kind::CONV2D_WEIGHT_GRAD"@,
        Kind::PoolMax2d => "kind::POOL_MAX2D"@,
        Kind::PoolMax2dInputGrad => "kind::POOL_MAX2D_INPUT_GRAD"@,
        Kind::PoolMean2d => "kind::POOL_MEAN2D"@,
        Kind::PoolMean2dInputGrad => "kind::POOL_MEAN2D_INPUT_GRAD"@,
    }
}

pub open spec fn kind_name(k: Kind) -> Seq<char> {
    match k {
        Kind::Matmul => "matmul"@,
        Kind::MatmulFold => "matmul_fold"@,
        Kind::Attention => "attention"@,
        Kind::AttentionQueryGrad => "attention_query_grad"@,
        Kind::AttentionKeyGrad => "attention_key_grad"@,
        Kind::AttentionValueGrad => "attention_value_grad"@,
        Kind::Binary => "binary"@,
        Kind::Unary => "unary"@,
        Kind::Partial => "partial"@,
        Kind::Fill => "fill"@,
        Kind::Broadcast => "broadcast"@,
        Kind::Layout => "layout"@,
        Kind::SumChunk => "sum_chunk"@,
        Kind::SumAxis => "sum_axis"@,
        Kind::Softmax => "softmax"@,
        Kind::SoftmaxGrad => "softmax_grad"@,
        Kind::LogSoftmax => "log_softmax"@,
        Kind::LogSoftmaxGrad => "log_softmax_grad"@,
        Kind::Argmax => "argmax"@,
        Kind::Categorical => "categorical"@,
        Kind::OneHot => "one_hot"@,
        Kind::Gather => "gather"@,
        Kind::Scatter => "scatter"@,
        Kind::ScatterWrite => "scatter_write"@,
        Kind::Convert => "convert"@,
        Kind::Conv2d => "conv2d"@,
        Kind::Conv2dInputGrad => "conv2d_input_grad"@,
        Kind::Conv2dWeightGrad => "conv2d_weight_grad"@,
        Kind::PoolMax2d => "pool_max2d"@,
        Kind::PoolMax2dInputGrad => "pool_max2d_input_grad"@,
        Kind::PoolMean2d => "pool_mean2d"@,
        Kind::PoolMean2dInputGrad => "pool_mean2d_input_grad"@,
    }
}

pub open spec fn kind_entry(k: Kind) -> Seq<char> {
    match k {
        Kind::Matmul => "run_matmul"@,
        Kind::MatmulFold => "run_matmul_fold"@,
        Kind::Attention => "run_attention"@,
        Kind::AttentionQueryGrad => "run_attention_query_grad"@,
        Kind::AttentionKeyGrad => "run_attention_key_grad"@,
        Kind::AttentionValueGrad => "run_attention_value_grad"@,
        Kind::Binary => "run_binary"@,
        Kind::Unary => "run_unary"@,
        Kind::Partial => "run_partial"@,
        Kind::Fill => "run_fill"@,
        Kind::Broadcast => "run_broadcast"@,
        Kind::Layout => "run_layout"@,
        Kind::SumChunk => "run_sum_chunk"@,
        Kind::SumAxis => "run_sum_axis"@,
        Kind::Softmax => "run_softmax"@,
        Kind::SoftmaxGrad => "run_softmax_grad"@,
        Kind::LogSoftmax => "run_log_softmax"@,
        Kind::LogSoftmaxGrad => "run_log_softmax_grad"@,
        Kind::Argmax => "run_argmax"@,
        Kind::Categorical => "run_categorical"@,
        Kind::OneHot => "run_one_hot"@,
        Kind::Gather => "run_gather"@,
        Kind::Scatter => "run_scatter"@,
        Kind::ScatterWrite => "run_scatter_write"@,
        Kind::Convert => "run_convert"@,
        Kind::Conv2d => "run_conv2d"@,
        Kind::Conv2dInputGrad => "run_conv2d_input_grad"@,
        Kind::Conv2dWeightGrad => "run_conv2d_weight_grad"@,
        Kind::PoolMax2d => "run_pool2d"@,
        Kind::PoolMax2dInputGrad => "run_pool2d_input_grad"@,
        Kind::PoolMean2d => "run_pool2d"@,
        Kind::PoolMean2dInputGrad => "run_pool2d_input_grad"@,
    }
}

pub open spec fn kind_modules(k: Kind) -> Seq<Module> {
    match k {
        Kind::Matmul => seq![Module::Matmul, Module::MatmulTiles],
        Kind::MatmulFold => seq![Module::Matmul],
        Kind::Attention => seq![Module::Attention],
        Kind::AttentionQueryGrad => seq![Module::Attention],
        Kind::AttentionKeyGrad => seq![Module::Attention],
        Kind::AttentionValueGrad => seq![Module::Attention],
        Kind::Binary => Seq::empty(),
        Kind::Unary => Seq::empty(),
        Kind::Partial => Seq::empty(),
        Kind::Fill => Seq::empty(),
        Kind::Broadcast => Seq::empty(),
        Kind::Layout => seq![Module::Layout],
        Kind::SumChunk => seq![Module::Reduce],
        Kind::SumAxis => seq![Module::Reduce],
        Kind::Softmax => seq![Module::Reduce, Module::Softmax],
        Kind::SoftmaxGrad => seq![Module::Reduce, Module::Softmax],
        Kind::LogSoftmax => seq![Module::Reduce, Module::Softmax],
        Kind::LogSoftmaxGrad => seq![Module::Reduce, Module::Softmax],
        Kind::Argmax => seq![Module::Reduce, Module::Choice],
        Kind::Categorical => seq![Module::Reduce, Module::Choice],
        Kind::OneHot => seq![Module::Select],
        Kind::Gather => seq![Module::Select],
        Kind::Scatter => seq![Module::Scatter],
        Kind::ScatterWrite => seq![Module::Scatter],
        Kind::Convert => seq![Module::Convert],
        Kind::Conv2d => seq![Module::Conv],
        Kind::Conv2dInputGrad => seq![Module::Conv],
        Kind::Conv2dWeightGrad => seq![Module::Conv],
        Kind::PoolMax2d => seq![Module::Pool],
        Kind::PoolMax2dInputGrad => seq![Module::Pool],
        Kind::PoolMean2d => seq![Module::Pool],
        Kind::PoolMean2dInputGrad => seq![Module::Pool],
    }
}

pub open spec fn kind_geometry(k: Kind) -> Geometry {
    match k {
        Kind::Matmul => Geometry::Product,
        Kind::MatmulFold => Geometry::Plain,
        Kind::Attention => Geometry::Attention,
        Kind::AttentionQueryGrad => Geometry::Attention,
        Kind::AttentionKeyGrad => Geometry::Attention,
        Kind::AttentionValueGrad => Geometry::Attention,
        Kind::Binary => Geometry::Plain,
        Kind::Unary => Geometry::Plain,
        Kind::Partial => Geometry::Plain,
        Kind::Fill => Geometry::Plain,
        Kind::Broadcast => Geometry::Plain,
        Kind::Layout => Geometry::Plain,
        Kind::SumChunk => Geometry::Plain,
        Kind::SumAxis => Geometry::Strategy,
        Kind::Softmax => Geometry::Plain,
        Kind::SoftmaxGrad => Geometry::Plain,
        Kind::LogSoftmax => Geometry::Plain,
        Kind::LogSoftmaxGrad => Geometry::Plain,
        Kind::Argmax => Geometry::Strategy,
        Kind::Categorical => Geometry::Strategy,
        Kind::OneHot => Geometry::Plain,
        Kind::Gather => Geometry::Plain,
        Kind::Scatter => Geometry::Plain,
        Kind::ScatterWrite => Geometry::Plain,
        Kind::Convert => Geometry::Plain,
        Kind::Conv2d => Geometry::Plain,
        Kind::Conv2dInputGrad => Geometry::Plain,
        Kind::Conv2dWeightGrad => Geometry::Strategy,
        Kind::PoolMax2d => Geometry::Plain,
        Kind::PoolMax2dInputGrad => Geometry::Plain,
        Kind::PoolMean2d => Geometry::Plain,
        Kind::PoolMean2dInputGrad => Geometry::Plain,
    }
}

pub open spec fn kind_prelude(k: Kind) -> bool {
    match k {
        Kind::SumChunk | Kind::SumAxis | Kind::Argmax | Kind::Categorical => true,
        _ => false,
    }
}

pub open spec fn kind_chain(k: Kind) -> bool {
    match k {
        Kind::Matmul | Kind::MatmulFold | Kind::Attention | Kind::AttentionQueryGrad | Kind::AttentionKeyGrad | Kind::AttentionValueGrad | Kind::Binary | Kind::Unary | Kind::Partial | Kind::Fill | Kind::Broadcast | Kind::SumAxis | Kind::Softmax | Kind::SoftmaxGrad | Kind::LogSoftmax | Kind::LogSoftmaxGrad | Kind::Argmax | Kind::Categorical | Kind::OneHot | Kind::Gather | Kind::Convert | Kind::Conv2d | Kind::Conv2dInputGrad | Kind::Conv2dWeightGrad | Kind::PoolMax2d | Kind::PoolMax2dInputGrad | Kind::PoolMean2d | Kind::PoolMean2dInputGrad => true,
        _ => false,
    }
}

pub open spec fn kind_origin(k: Kind) -> bool {
    match k {
        Kind::Attention | Kind::AttentionQueryGrad | Kind::AttentionKeyGrad | Kind::AttentionValueGrad => true,
        _ => false,
    }
}

/// Whether a list of modules links a module that stages through `scratch`.
pub open spec fn modules_stage(modules: Seq<Module>, scratch: Scratch) -> bool {
    exists|i: int| 0 <= i < modules.len() && module_scratch(#[trigger] modules[i]).contains(scratch)
}

/// What the device program declares of one task kind.
#[derive(Clone, PartialEq, Eq, Debug, Hash)]
pub struct KindInfo {
    pub kind: Kind,
    pub symbol: &'static str,
    pub name: &'static str,
    pub entry: &'static str,
    pub modules: Vec<Module>,
    pub geometry: Geometry,
    pub prelude: bool,
    pub chain: bool,
    pub origin: bool,
}

/// `info` is what the device program declares of `k`.
pub open spec fn declares(info: KindInfo, k: Kind) -> bool {
    &&& info.kind == k
    &&& info.symbol@ == kind_symbol(k)
    &&& info.name@ == kind_name(k)
    &&& info.entry@ == kind_entry(k)
    &&& info.modules@ == kind_modules(k)
    &&& info.geometry == kind_geometry(k)
    &&& info.prelude == kind_prelude(k)
    &&& info.chain == kind_chain(k)
    &&& info.origin == kind_origin(k)
}

fn contains_module(modules: &Vec<Module>, module: Module) -> (r: bool)
    ensures
        r == modules@.contains(module),
{
    let mut i: usize = 0;
    while i < modules.len()
        invariant
            i <= modules@.len(),
            forall|j: int| 0 <= j < i ==> modules@[j] != module,
        decreases modules@.len() - i,
    {
        if modules[i] == module {
            return true;
        }
        i += 1;
    }
    false
}

fn contains_scratch(scratch: &Vec<Scratch>, wanted: Scratch) -> (r: bool)
    ensures
        r == scratch@.contains(wanted),
{
    let mut i: usize = 0;
    while i < scratch.len()
        invariant
            i <= scratch@.len(),
            forall|j: int| 0 <= j < i ==> scratch@[j] != wanted,
        decreases scratch@.len() - i,
    {
        if scratch[i] == wanted {
            return true;
        }
        i += 1;
    }
    false
}

impl KindInfo {
    /// Whether the kind links `module`.
    pub fn carries(&self, module: Module) -> (r: bool)
        ensures
            r == self.modules@.contains(module),
    {
        contains_module(&self.modules, module)
    }

    /// Whether a module the kind links stages through `scratch`.
    pub fn stages(&self, scratch: Scratch) -> (r: bool)
        ensures
            r == modules_stage(self.modules@, scratch),
    {
        let mut i: usize = 0;
        while i < self.modules.len()
            invariant
                i <= self.modules@.len(),
                forall|j: int| 0 <= j < i ==> !module_scratch(#[trigger] self.modules@[j]).contains(scratch),
            decreases self.modules@.len() - i,
        {
            let staged = self.modules[i].scratch();
            if contains_scratch(&staged, scratch) {
                return true;
            }
            i += 1;
        }
        false
    }
}

impl Kind {
    pub const COUNT: u32 = 32;

    /// Every task kind, in the order of its code.
    pub fn all() -> (r: Vec<Kind>)
        ensures
            r@.len() == 32,
            forall|i: int| 0 <= i < 32 ==> kind_code(#[trigger] r@[i]) == i,
    {
        let r = vec![
            Kind::Matmul,
            Kind::MatmulFold,
            Kind::Attention,
            Kind::AttentionQueryGrad,
            Kind::AttentionKeyGrad,
            Kind::AttentionValueGrad,
            Kind::Binary,
            Kind::Unary,
            Kind::Partial,
            Kind::Fill,
            Kind::Broadcast,
            Kind::Layout,
            Kind::SumChunk,
            Kind::SumAxis,
            Kind::Softmax,
            Kind::SoftmaxGrad,
            Kind::LogSoftmax,
            Kind::LogSoftmaxGrad,
            Kind::Argmax,
            Kind::Categorical,
            Kind::OneHot,
            Kind::Gather,
            Kind::Scatter,
            Kind::ScatterWrite,
            Kind::Convert,
            Kind::Conv2d,
            Kind::Conv2dInputGrad,
            Kind::Conv2dWeightGrad,
            Kind::PoolMax2d,
            Kind::PoolMax2dInputGrad,
            Kind::PoolMean2d,
            Kind::PoolMean2dInputGrad,
        ];
        assert forall|i: int| 0 <= i < 32 implies kind_code(#[trigger] r@[i]) == i by {
            if i == 0 {
                assert(r@[0] == Kind::Matmul);
            } else if i == 1 {
                assert(r@[1] == Kind::MatmulFold);
            } else if i == 2 {
                assert(r@[2] == Kind::Attention);
            } else if i == 3 {
                assert(r@[3] == Kind::AttentionQueryGrad);
            } else if i == 4 {
                assert(r@[4] == Kind::AttentionKeyGrad);
            } else if i == 5 {
                assert(r@[5] == Kind::AttentionValueGrad);
            } else if i == 6 {
                assert(r@[6] == Kind::Binary);
            } else if i == 7 {
                assert(r@[7] == Kind::Unary);
            } else if i == 8 {
                assert(r@[8] == Kind::Partial);
            } else if i == 9 {
                assert(r@[9] == Kind::Fill);
            } else if i == 10 {
                assert(r@[10] == Kind::Broadcast);
            } else if i == 11 {
                assert(r@[11] == Kind::Layout);
            } else if i == 12 {
                assert(r@[12] == Kind::SumChunk);
            } else if i == 13 {
                assert(r@[13] == Kind::SumAxis);
            } else if i == 14 {
                assert(r@[14] == Kind::Softmax);
            } else if i == 15 {
                assert(r@[15] == Kind::SoftmaxGrad);
            } else if i == 16 {
                assert(r@[16] == Kind::LogSoftmax);
            } else if i == 17 {
                assert(r@[17] == Kind::LogSoftmaxGrad);
            } else if i == 18 {
                assert(r@[18] == Kind::Argmax);
            } else if i == 19 {
                assert(r@[19] == Kind::Categorical);
            } else if i == 20 {
                assert(r@[20] == Kind::OneHot);
            } else if i == 21 {
                assert(r@[21] == Kind::Gather);
            } else if i == 22 {
                assert(r@[22] == Kind::Scatter);
            } else if i == 23 {
                assert(r@[23] == Kind::ScatterWrite);
            } else if i == 24 {
                assert(r@[24] == Kind::Convert);
            } else if i == 25 {
                assert(r@[25] == Kind::Conv2d);
            } else if i == 26 {
                assert(r@[26] == Kind::Conv2dInputGrad);
            } else if i == 27 {
                assert(r@[27] == Kind::Conv2dWeightGrad);
            } else if i == 28 {
                assert(r@[28] == Kind::PoolMax2d);
            } else if i == 29 {
                assert(r@[29] == Kind::PoolMax2dInputGrad);
            } else if i == 30 {
                assert(r@[30] == Kind::PoolMean2d);
            } else if i == 31 {
                assert(r@[31] == Kind::PoolMean2dInputGrad);
            }
        }
        r
    }

    pub fn code(self) -> (r: u32)
        ensures
            r == kind_code(self),
    {
        match self {
            Kind::Matmul => 0,
            Kind::MatmulFold => 1,
            Kind::Attention => 2,
            Kind::AttentionQueryGrad => 3,
            Kind::AttentionKeyGrad => 4,
            Kind::AttentionValueGrad => 5,
            Kind::Binary => 6,
            Kind::Unary => 7,
            Kind::Partial => 8,
            Kind::Fill => 9,
            Kind::Broadcast => 10,
            Kind::Layout => 11,
            Kind::SumChunk => 12,
            Kind::SumAxis => 13,
            Kind::Softmax => 14,
            Kind::SoftmaxGrad => 15,
            Kind::LogSoftmax => 16,
            Kind::LogSoftmaxGrad => 17,
            Kind::Argmax => 18,
            Kind::Categorical => 19,
            Kind::OneHot => 20,
            Kind::Gather => 21,
            Kind::Scatter => 22,
            Kind::ScatterWrite => 23,
            Kind::Convert => 24,
            Kind::Conv2d => 25,
            Kind::Conv2dInputGrad => 26,
            Kind::Conv2dWeightGrad => 27,
            Kind::PoolMax2d => 28,
            Kind::PoolMax2dInputGrad => 29,
            Kind::PoolMean2d => 30,
            Kind::PoolMean2dInputGrad => 31,
        }
    }

    /// The task kind of a device code; every code below `COUNT` names one.
    pub fn of(code: u32) -> (r: Kind)
        requires
            code < 32,
        ensures
            r == kind_of(code as nat),
            kind_code(r) == code,
    {
        if code == 0 {
            Kind::Matmul
        } else if code == 1 {
            Kind::MatmulFold
        } else if code == 2 {
            Kind::Attention
        } else if code == 3 {
            Kind::AttentionQueryGrad
        } else if code == 4 {
            Kind::AttentionKeyGrad
        } else if code == 5 {
            Kind::AttentionValueGrad
        } else if code == 6 {
            Kind::Binary
        } else if code == 7 {
            Kind::Unary
        } else if code == 8 {
            Kind::Partial
        } else if code == 9 {
            Kind::Fill
        } else if code == 10 {
            Kind::Broadcast
        } else if code == 11 {
            Kind::Layout
        } else if code == 12 {
            Kind::SumChunk
        } else if code == 13 {
            Kind::SumAxis
        } else if code == 14 {
            Kind::Softmax
        } else if code == 15 {
            Kind::SoftmaxGrad
        } else if code == 16 {
            Kind::LogSoftmax
        } else if code == 17 {
            Kind::LogSoftmaxGrad
        } else if code == 18 {
            Kind::Argmax
        } else if code == 19 {
            Kind::Categorical
        } else if code == 20 {
            Kind::OneHot
        } else if code == 21 {
            Kind::Gather
        } else if code == 22 {
            Kind::Scatter
        } else if code == 23 {
            Kind::ScatterWrite
        } else if code == 24 {
            Kind::Convert
        } else if code == 25 {
            Kind::Conv2d
        } else if code == 26 {
            Kind::Conv2dInputGrad
        } else if code == 27 {
            Kind::Conv2dWeightGrad
        } else if code == 28 {
            Kind::PoolMax2d
        } else if code == 29 {
            Kind::PoolMax2dInputGrad
        } else if code == 30 {
            Kind::PoolMean2d
        } else {
            Kind::PoolMean2dInputGrad
        }
    }

    /// What the device program declares of this kind.
    pub fn info(self) -> (r: KindInfo)
        ensures
            declares(r, self),
    {
        match self {
            Kind::Matmul => {
                let modules = vec![Module::Matmul, Module::MatmulTiles];
                assert(modules@ =~= kind_modules(self));
                KindInfo {
                    kind: self,
                    symbol: "kind::MATMUL",
                    name: "matmul",
                    entry: "run_matmul",
                    modules,
                    geometry: Geometry::Product,
                    prelude: false,
                    chain: true,
                    origin: false,
                }
            },
            Kind::MatmulFold => {
                let modules = vec![Module::Matmul];
                assert(modules@ =~= kind_modules(self));
                KindInfo {
                    kind: self,
                    symbol: "kind::MATMUL_FOLD",
                    name: "matmul_fold",
                    entry: "run_matmul_fold",
                    modules,
                    geometry: Geometry::Plain,
                    prelude: false,
                    chain: true,
                    origin: false,
                }
            },
            Kind::Attention => {
                let modules = vec![Module::Attention];
                assert(modules@ =~= kind_modules(self));
                KindInfo {
                    kind: self,
                    symbol: "kind::ATTENTION",
                    name: "attention",
                    entry: "run_attention",
                    modules,
                    geometry: Geometry::Attention,
                    prelude: false,
                    chain: true,
                    origin: true,
                }
            },
            Kind::AttentionQueryGrad => {
                let modules = vec![Module::Attention];
                assert(modules@ =~= kind_modules(self));
                KindInfo {
                    kind: self,
                    symbol: "kind::ATTENTION_QUERY_GRAD",
                    name: "attention_query_grad",
                    entry: "run_attention_query_grad",
                    modules,
                    geometry: Geometry::Attention,
                    prelude: false,
                    chain: true,
                    origin: true,
                }
            },
            Kind::AttentionKeyGrad => {
                let modules = vec![Module::Attention];
                assert(modules@ =~= kind_modules(self));
                KindInfo {
                    kind: self,
                    symbol: "kind::ATTENTION_KEY_GRAD",
                    name: "attention_key_grad",
                    entry: "run_attention_key_grad",
                    modules,
                    geometry: Geometry::Attention,
                    prelude: false,
                    chain: true,
                    origin: true,
                }
            },
            Kind::AttentionValueGrad => {
                let modules = vec![Module::Attention];
                assert(modules@ =~= kind_modules(self));
                KindInfo {
                    kind: self,
                    symbol: "kind::ATTENTION_VALUE_GRAD",
                    name: "attention_value_grad",
                    entry: "run_attention_value_grad",
                    modules,
                    geometry: Geometry::Attention,
                    prelude: false,
                    chain: true,
                    origin: true,
                }
            },
            Kind::Binary => {
                let modules = Vec::new();
                assert(modules@ =~= kind_modules(self));
                KindInfo {
                    kind: self,
                    symbol: "kind::BINARY",
                    name: "binary",
                    entry: "run_binary",
                    modules,
                    geometry: Geometry::Plain,
                    prelude: false,
                    chain: true,
                    origin: false,
                }
            },
            Kind::Unary => {
                let modules = Vec::new();
                assert(modules@ =~= kind_modules(self));
                KindInfo {
                    kind: self,
                    symbol: "kind::UNARY",
                    name: "unary",
                    entry: "run_unary",
                    modules,
                    geometry: Geometry::Plain,
                    prelude: false,
                    chain: true,
                    origin: false,
                }
            },
            Kind::Partial => {
                let modules = Vec::new();
                assert(modules@ =~= kind_modules(self));
                KindInfo {
                    kind: self,
                    symbol: "kind::PARTIAL",
                    name: "partial",
                    entry: "run_partial",
                    modules,
                    geometry: Geometry::Plain,
                    prelude: false,
                    chain: true,
                    origin: false,
                }
            },
            Kind::Fill => {
                let modules = Vec::new();
                assert(modules@ =~= kind_modules(self));
                KindInfo {
                    kind: self,
                    symbol: "kind::FILL",
                    name: "fill",
                    entry: "run_fill",
                    modules,
                    geometry: Geometry::Plain,
                    prelude: false,
                    chain: true,
                    origin: false,
                }
            },
            Kind::Broadcast => {
                let modules = Vec::new();
                assert(modules@ =~= kind_modules(self));
                KindInfo {
                    kind: self,
                    symbol: "kind::BROADCAST",
                    name: "broadcast",
                    entry: "run_broadcast",
                    modules,
                    geometry: Geometry::Plain,
                    prelude: false,
                    chain: true,
                    origin: false,
                }
            },
            Kind::Layout => {
                let modules = vec![Module::Layout];
                assert(modules@ =~= kind_modules(self));
                KindInfo {
                    kind: self,
                    symbol: "kind::LAYOUT",
                    name: "layout",
                    entry: "run_layout",
                    modules,
                    geometry: Geometry::Plain,
                    prelude: false,
                    chain: false,
                    origin: false,
                }
            },
            Kind::SumChunk => {
                let modules = vec![Module::Reduce];
                assert(modules@ =~= kind_modules(self));
                KindInfo {
                    kind: self,
                    symbol: "kind::SUM_CHUNK",
                    name: "sum_chunk",
                    entry: "run_sum_chunk",
                    modules,
                    geometry: Geometry::Plain,
                    prelude: true,
                    chain: false,
                    origin: false,
                }
            },
            Kind::SumAxis => {
                let modules = vec![Module::Reduce];
                assert(modules@ =~= kind_modules(self));
                KindInfo {
                    kind: self,
                    symbol: "kind::SUM_AXIS",
                    name: "sum_axis",
                    entry: "run_sum_axis",
                    modules,
                    geometry: Geometry::Strategy,
                    prelude: true,
                    chain: true,
                    origin: false,
                }
            },
            Kind::Softmax => {
                let modules = vec![Module::Reduce, Module::Softmax];
                assert(modules@ =~= kind_modules(self));
                KindInfo {
                    kind: self,
                    symbol: "kind::SOFTMAX",
                    name: "softmax",
                    entry: "run_softmax",
                    modules,
                    geometry: Geometry::Plain,
                    prelude: false,
                    chain: true,
                    origin: false,
                }
            },
            Kind::SoftmaxGrad => {
                let modules = vec![Module::Reduce, Module::Softmax];
                assert(modules@ =~= kind_modules(self));
                KindInfo {
                    kind: self,
                    symbol: "kind::SOFTMAX_GRAD",
                    name: "softmax_grad",
                    entry: "run_softmax_grad",
                    modules,
                    geometry: Geometry::Plain,
                    prelude: false,
                    chain: true,
                    origin: false,
                }
            },
            Kind::LogSoftmax => {
                let modules = vec![Module::Reduce, Module::Softmax];
                assert(modules@ =~= kind_modules(self));
                KindInfo {
                    kind: self,
                    symbol: "kind::LOG_SOFTMAX",
                    name: "log_softmax",
                    entry: "run_log_softmax",
                    modules,
                    geometry: Geometry::Plain,
                    prelude: false,
                    chain: true,
                    origin: false,
                }
            },
            Kind::LogSoftmaxGrad => {
                let modules = vec![Module::Reduce, Module::Softmax];
                assert(modules@ =~= kind_modules(self));
                KindInfo {
                    kind: self,
                    symbol: "kind::LOG_SOFTMAX_GRAD",
                    name: "log_softmax_grad",
                    entry: "run_log_softmax_grad",
                    modules,
                    geometry: Geometry::Plain,
                    prelude: false,
                    chain: true,
                    origin: false,
                }
            },
            Kind::Argmax => {
                let modules = vec![Module::Reduce, Module::Choice];
                assert(modules@ =~= kind_modules(self));
                KindInfo {
                    kind: self,
                    symbol: "kind::ARGMAX",
                    name: "argmax",
                    entry: "run_argmax",
                    modules,
                    geometry: Geometry::Strategy,
                    prelude: true,
                    chain: true,
                    origin: false,
                }
            },
            Kind::Categorical => {
                let modules = vec![Module::Reduce, Module::Choice];
                assert(modules@ =~= kind_modules(self));
                KindInfo {
                    kind: self,
                    symbol: "kind::CATEGORICAL",
                    name: "categorical",
                    entry: "run_categorical",
                    modules,
                    geometry: Geometry::Strategy,
                    prelude: true,
                    chain: true,
                    origin: false,
                }
            },
            Kind::OneHot => {
                let modules = vec![Module::Select];
                assert(modules@ =~= kind_modules(self));
                KindInfo {
                    kind: self,
                    symbol: "kind::ONE_HOT",
                    name: "one_hot",
                    entry: "run_one_hot",
                    modules,
                    geometry: Geometry::Plain,
                    prelude: false,
                    chain: true,
                    origin: false,
                }
            },
            Kind::Gather => {
                let modules = vec![Module::Select];
                assert(modules@ =~= kind_modules(self));
                KindInfo {
                    kind: self,
                    symbol: "kind::GATHER",
                    name: "gather",
                    entry: "run_gather",
                    modules,
                    geometry: Geometry::Plain,
                    prelude: false,
                    chain: true,
                    origin: false,
                }
            },
            Kind::Scatter => {
                let modules = vec![Module::Scatter];
                assert(modules@ =~= kind_modules(self));
                KindInfo {
                    kind: self,
                    symbol: "kind::SCATTER",
                    name: "scatter",
                    entry: "run_scatter",
                    modules,
                    geometry: Geometry::Plain,
                    prelude: false,
                    chain: false,
                    origin: false,
                }
            },
            Kind::ScatterWrite => {
                let modules = vec![Module::Scatter];
                assert(modules@ =~= kind_modules(self));
                KindInfo {
                    kind: self,
                    symbol: "kind::SCATTER_WRITE",
                    name: "scatter_write",
                    entry: "run_scatter_write",
                    modules,
                    geometry: Geometry::Plain,
                    prelude: false,
                    chain: false,
                    origin: false,
                }
            },
            Kind::Convert => {
                let modules = vec![Module::Convert];
                assert(modules@ =~= kind_modules(self));
                KindInfo {
                    kind: self,
                    symbol: "kind::CONVERT",
                    name: "convert",
                    entry: "run_convert",
                    modules,
                    geometry: Geometry::Plain,
                    prelude: false,
                    chain: true,
                    origin: false,
                }
            },
            Kind::Conv2d => {
                let modules = vec![Module::Conv];
                assert(modules@ =~= kind_modules(self));
                KindInfo {
                    kind: self,
                    symbol: "kind::CONV2D",
                    name: "conv2d",
                    entry: "run_conv2d",
                    modules,
                    geometry: Geometry::Plain,
                    prelude: false,
                    chain: true,
                    origin: false,
                }
            },
            Kind::Conv2dInputGrad => {
                let modules = vec![Module::Conv];
                assert(modules@ =~= kind_modules(self));
                KindInfo {
                    kind: self,
                    symbol: "kind::CONV2D_INPUT_GRAD",
                    name: "conv2d_input_grad",
                    entry: "run_conv2d_input_grad",
                    modules,
                    geometry: Geometry::Plain,
                    prelude: false,
                    chain: true,
                    origin: false,
                }
            },
            Kind::Conv2dWeightGrad => {
                let modules = vec![Module::Conv];
                assert(modules@ =~= kind_modules(self));
                KindInfo {
                    kind: self,
                    symbol: "kind::CONV2D_WEIGHT_GRAD",
                    name: "conv2d_weight_grad",
                    entry: "run_conv2d_weight_grad",
                    modules,
                    geometry: Geometry::Strategy,
                    prelude: false,
                    chain: true,
                    origin: false,
                }
            },
            Kind::PoolMax2d => {
                let modules = vec![Module::Pool];
                assert(modules@ =~= kind_modules(self));
                KindInfo {
                    kind: self,
                    symbol: "kind::POOL_MAX2D",
                    name: "pool_max2d",
                    entry: "run_pool2d",
                    modules,
                    geometry: Geometry::Plain,
                    prelude: false,
                    chain: true,
                    origin: false,
                }
            },
            Kind::PoolMax2dInputGrad => {
                let modules = vec![Module::Pool];
                assert(modules@ =~= kind_modules(self));
                KindInfo {
                    kind: self,
                    symbol: "kind::POOL_MAX2D_INPUT_GRAD",
                    name: "pool_max2d_input_grad",
                    entry: "run_pool2d_input_grad",
                    modules,
                    geometry: Geometry::Plain,
                    prelude: false,
                    chain: true,
                    origin: false,
                }
            },
            Kind::PoolMean2d => {
                let modules = vec![Module::Pool];
                assert(modules@ =~= kind_modules(self));
                KindInfo {
                    kind: self,
                    symbol: "kind::POOL_MEAN2D",
                    name: "pool_mean2d",
                    entry: "run_pool2d",
                    modules,
                    geometry: Geometry::Plain,
                    prelude: false,
                    chain: true,
                    origin: false,
                }
            },
            Kind::PoolMean2dInputGrad => {
                let modules = vec![Module::Pool];
                assert(modules@ =~= kind_modules(self));
                KindInfo {
                    kind: self,
                    symbol: "kind::POOL_MEAN2D_INPUT_GRAD",
                    name: "pool_mean2d_input_grad",
                    entry: "run_pool2d_input_grad",
                    modules,
                    geometry: Geometry::Plain,
                    prelude: false,
                    chain: true,
                    origin: false,
                }
            },
        }
    }

    pub fn symbol(self) -> (r: &'static str)
        ensures
            r@ == kind_symbol(self),
    {
        self.info().symbol
    }

    pub fn name(self) -> (r: &'static str)
        ensures
            r@ == kind_name(self),
    {
        self.info().name
    }

    /// The device function that runs this kind.
    pub fn entry(self) -> (r: &'static str)
        ensures
            r@ == kind_entry(self),
    {
        self.info().entry
    }

    /// Whether this kind links `module`.
    pub fn carries(self, module: Module) -> (r: bool)
        ensures
            r == kind_modules(self).contains(module),
    {
        self.info().carries(module)
    }

    /// Whether a module this kind links stages through `scratch`.
    pub fn stages(self, scratch: Scratch) -> (r: bool)
        ensures
            r == modules_stage(kind_modules(self), scratch),
    {
        self.info().stages(scratch)
    }

    pub fn geometry(self) -> (r: Geometry)
        ensures
            r == kind_geometry(self),
    {
        self.info().geometry
    }

    /// Whether a task of this kind runs a prelude of steps over its input.
    pub fn takes_prelude(self) -> (r: bool)
        ensures
            r == kind_prelude(self),
    {
        self.info().prelude
    }

    /// Whether a task of this kind runs a chain of steps over its output.
    pub fn takes_chain(self) -> (r: bool)
        ensures
            r == kind_chain(self),
    {
        self.info().chain
    }

    /// Whether a task of this kind reads the origin of its operands.
    pub fn reads_origin(self) -> (r: bool)
        ensures
            r == kind_origin(self),
    {
        self.info().origin
    }
}

/// What the device program declares of every task kind, in the order of its code.
pub fn kinds() -> (r: Vec<KindInfo>)
    ensures
        r@.len() == 32,
        forall|i: int| 0 <= i < 32 ==> declares(#[trigger] r@[i], kind_of(i as nat)),
{
    let all = Kind::all();
    let mut r: Vec<KindInfo> = Vec::new();
    let mut i: usize = 0;
    while i < all.len()
        invariant
            i <= 32,
            all@.len() == 32,
            forall|j: int| 0 <= j < 32 ==> kind_code(#[trigger] all@[j]) == j,
            r@.len() == i,
            forall|j: int| 0 <= j < i ==> declares(#[trigger] r@[j], kind_of(j as nat)),
        decreases 32 - i,
    {
        proof {
            lemma_kind_code_round_trip(all@[i as int], 0);
        }
        r.push(all[i].info());
        i += 1;
    }
    r
}

/// Every kind reads back from its code, and every code below `COUNT` names the
/// kind it reads back as: the codes of the kinds are exactly 0 through 31.
pub proof fn lemma_kind_code_round_trip(k: Kind, code: nat)
    ensures
        kind_of(kind_code(k)) == k,
        kind_code(k) < 32,
        code < 32 ==> kind_code(kind_of(code)) == code,
{
}

/// A kind stages through a scratch region exactly when it links the module
/// that owns that region.
pub proof fn lemma_staging_follows_modules(k: Kind, s: Scratch)
    ensures
        modules_stage(kind_modules(k), s) <==> (
            (s == Scratch::Staging && kind_modules(k).contains(Module::MatmulTiles))
            || (s == Scratch::Attention && kind_modules(k).contains(Module::Attention))
            || (s == Scratch::Reduction && kind_modules(k).contains(Module::Reduce))
            || (s == Scratch::Choice && kind_modules(k).contains(Module::Choice))),
{
    let ms = kind_modules(k);
    if modules_stage(ms, s) {
        let i = choose|i: int| 0 <= i < ms.len() && module_scratch(#[trigger] ms[i]).contains(s);
        assert(ms.contains(ms[i]));
        match ms[i] {
            Module::MatmulTiles => assert(module_scratch(ms[i]) =~= seq![Scratch::Staging]),
            Module::Attention => assert(module_scratch(ms[i]) =~= seq![Scratch::Attention]),
            Module::Reduce => assert(module_scratch(ms[i]) =~= seq![Scratch::Reduction]),
            Module::Choice => assert(module_scratch(ms[i]) =~= seq![Scratch::Choice]),
            _ => assert(module_scratch(ms[i]) =~= Seq::<Scratch>::empty()),
        }
    }
    if s == Scratch::Staging && ms.contains(Module::MatmulTiles) {
        let i = choose|i: int| 0 <= i < ms.len() && ms[i] == Module::MatmulTiles;
        assert(module_scratch(ms[i]) =~= seq![Scratch::Staging]);
        assert(module_scratch(ms[i])[0] == s);
    }
    if s == Scratch::Attention && ms.contains(Module::Attention) {
        let i = choose|i: int| 0 <= i < ms.len() && ms[i] == Module::Attention;
        assert(module_scratch(ms[i])[0] == s);
    }
    if s == Scratch::Reduction && ms.contains(Module::Reduce) {
        let i = choose|i: int| 0 <= i < ms.len() && ms[i] == Module::Reduce;
        assert(module_scratch(ms[i])[0] == s);
    }
    if s == Scratch::Choice && ms.contains(Module::Choice) {
        let i = choose|i: int| 0 <= i < ms.len() && ms[i] == Module::Choice;
        assert(module_scratch(ms[i])[0] == s);
    }
}

} // verus!
