//! The compiled program: an immutable instruction stream with side
//! tables (literal pool, rule metadata, typed parameter blocks, entry
//! points, a rule tree, and builtin descriptors).

use vstd::prelude::*;
use crate::value::{Value, SpecValue, wf_val, view_of, kvs_view};
use crate::containers::spec_index;
use crate::errors::VmError;

verus! {

broadcast use vstd::group_vstd_default;

/// A path component of a chained or virtual lookup: a literal-pool
/// index or a register.
#[derive(Debug, Clone, Copy)]
pub enum LiteralOrRegister {
    Literal(u16),
    Register(u8),
}

/// Loop modes: existential, universal, or plain iteration.
#[derive(Debug, Clone, Copy)]
pub enum LoopMode {
    Any,
    Every,
    ForEach,
}

/// Comprehension accumulator modes.
#[derive(Debug, Clone, Copy)]
pub enum ComprehensionMode {
    Array,
    SetV,
    Object,
}

/// Rule kinds: a complete rule produces one value; partial rules
/// accumulate into a set or an object.
#[derive(Debug, Clone, Copy)]
pub enum RuleType {
    Complete,
    PartialSet,
    PartialObject,
}

/// One opcode with inline operands.
#[allow(inconsistent_fields)]
#[derive(Debug, Clone, Copy)]
pub enum Instruction {
    Load { dest: u8, literal_idx: u16 },
    LoadTrue { dest: u8 },
    LoadFalse { dest: u8 },
    LoadNull { dest: u8 },
    LoadBool { dest: u8, value: bool },
    LoadData { dest: u8 },
    LoadInput { dest: u8 },
    Move { dest: u8, src: u8 },
    Add { dest: u8, left: u8, right: u8 },
    Sub { dest: u8, left: u8, right: u8 },
    Mul { dest: u8, left: u8, right: u8 },
    Div { dest: u8, left: u8, right: u8 },
    Mod { dest: u8, left: u8, right: u8 },
    Eq { dest: u8, left: u8, right: u8 },
    Ne { dest: u8, left: u8, right: u8 },
    Lt { dest: u8, left: u8, right: u8 },
    Le { dest: u8, left: u8, right: u8 },
    Gt { dest: u8, left: u8, right: u8 },
    Ge { dest: u8, left: u8, right: u8 },
    And { dest: u8, left: u8, right: u8 },
    Or { dest: u8, left: u8, right: u8 },
    Not { dest: u8, operand: u8 },
    BuiltinCall { params_index: u16 },
    FunctionCall { params_index: u16 },
    Return { value: u8 },
    CallRule { dest: u8, rule_index: u16 },
    RuleInit { result_reg: u8, rule_index: u16 },
    DestructuringSuccess {},
    RuleReturn {},
    ObjectSet { obj: u8, key: u8, value: u8 },
    ObjectCreate { params_index: u16 },
    Index { dest: u8, container: u8, key: u8 },
    IndexLiteral { dest: u8, container: u8, literal_idx: u16 },
    ArrayNew { dest: u8 },
    ArrayPush { arr: u8, value: u8 },
    ArrayCreate { params_index: u16 },
    SetNew { dest: u8 },
    SetAdd { dst: u8, value: u8 },
    SetCreate { params_index: u16 },
    Contains { dest: u8, collection: u8, value: u8 },
    Count { dest: u8, collection: u8 },
    AssertCondition { condition: u8 },
    AssertNotUndefined { register: u8 },
    LoopStart { params_index: u16 },
    LoopNext { body_start: u16, loop_end: u16 },
    Halt {},
    ChainedIndex { params_index: u16 },
    VirtualDataDocumentLookup { params_index: u16 },
    ComprehensionBegin { params_index: u16 },
    ComprehensionYield { value_reg: u8, key_reg: Option<u8> },
    ComprehensionEnd {},
}

/// Parameters of `ObjectCreate`: a template literal, value updates for
/// literal keys (sorted by key), and register-pair fields.
#[derive(Debug)]
pub struct ObjectCreateParams {
    pub dest: u8,
    pub template_literal_idx: u16,
    pub literal_key_field_pairs: Vec<(u16, u8)>,
    pub field_pairs: Vec<(u8, u8)>,
}

#[derive(Debug)]
pub struct ArrayCreateParams {
    pub dest: u8,
    pub element_registers: Vec<u8>,
}

#[derive(Debug)]
pub struct SetCreateParams {
    pub dest: u8,
    pub element_registers: Vec<u8>,
}

#[derive(Debug)]
pub struct ChainedIndexParams {
    pub dest: u8,
    pub root: u8,
    pub path_components: Vec<LiteralOrRegister>,
}

#[derive(Debug)]
pub struct VirtualDataDocumentLookupParams {
    pub dest: u8,
    pub path_components: Vec<LiteralOrRegister>,
}

#[derive(Debug, Clone, Copy)]
pub struct ComprehensionBeginParams {
    pub mode: ComprehensionMode,
    pub collection_reg: u8,
    pub comprehension_end: u16,
}

/// Parameters of `LoopStart`.
#[derive(Debug, Clone, Copy)]
pub struct LoopStartParams {
    pub mode: LoopMode,
    pub collection: u8,
    pub key_reg: u8,
    pub value_reg: u8,
    pub result_reg: u8,
    pub body_start: u16,
    pub loop_end: u16,
}

#[derive(Debug)]
pub struct BuiltinCallParams {
    pub dest: u8,
    pub builtin_index: u16,
    pub arg_registers: Vec<u8>,
}

#[derive(Debug)]
pub struct FunctionCallParams {
    pub dest: u8,
    pub func_rule_index: u16,
    pub args: Vec<u8>,
}

/// Typed parameter blocks, indexed by opcode operands.
#[derive(Debug)]
pub struct InstructionData {
    pub object_create_params: Vec<ObjectCreateParams>,
    pub array_create_params: Vec<ArrayCreateParams>,
    pub set_create_params: Vec<SetCreateParams>,
    pub chained_index_params: Vec<ChainedIndexParams>,
    pub virtual_data_document_lookup_params: Vec<VirtualDataDocumentLookupParams>,
    pub comprehension_begin_params: Vec<ComprehensionBeginParams>,
    pub loop_params: Vec<LoopStartParams>,
    pub builtin_call_params: Vec<BuiltinCallParams>,
    pub function_call_params: Vec<FunctionCallParams>,
}

impl InstructionData {
    pub fn new_empty() -> (r: InstructionData)
        ensures
            r.object_create_params@.len() == 0,
            r.array_create_params@.len() == 0,
            r.set_create_params@.len() == 0,
            r.chained_index_params@.len() == 0,
            r.virtual_data_document_lookup_params@.len() == 0,
            r.comprehension_begin_params@.len() == 0,
            r.loop_params@.len() == 0,
            r.builtin_call_params@.len() == 0,
            r.function_call_params@.len() == 0,
    {
        InstructionData {
            object_create_params: Vec::new(),
            array_create_params: Vec::new(),
            set_create_params: Vec::new(),
            chained_index_params: Vec::new(),
            virtual_data_document_lookup_params: Vec::new(),
            comprehension_begin_params: Vec::new(),
            loop_params: Vec::new(),
            builtin_call_params: Vec::new(),
            function_call_params: Vec::new(),
        }
    }
}

/// Per-rule metadata: definitions (each a list of body entry points),
/// optional destructuring entry points, kind, default, and arity.
#[derive(Debug)]
pub struct RuleInfo {
    pub name: String,
    pub result_reg: u8,
    pub num_registers: u16,
    pub definitions: Vec<Vec<u32>>,
    pub destructuring_blocks: Vec<Option<u32>>,
    pub rule_type: RuleType,
    pub default_literal_index: Option<u16>,
    pub function_info: Option<u16>,
}

/// A builtin descriptor: its name and declared argument count. The
/// implementations live with the host behind the machine's builtin-host
/// interface; one the host does not provide is reported as unresolved
/// under the name recorded here.
#[derive(Debug)]
pub struct BuiltinInfo {
    pub name: String,
    pub num_args: u16,
}

/// The compiled program. All fields are read-only during execution.
#[derive(Debug)]
pub struct Program {
    pub instructions: Vec<Instruction>,
    pub literals: Vec<Value>,
    pub rule_infos: Vec<RuleInfo>,
    pub instruction_data: InstructionData,
    pub rule_tree: Value,
    pub entry_points: Vec<(String, usize)>,
    pub builtin_info_table: Vec<BuiltinInfo>,
    pub main_entry_point: usize,
    pub dispatch_window_size: usize,
}

/// Well-formedness of a program: every literal and the rule tree are
/// well-formed values.
pub open spec fn prog_wf(p: Program) -> bool {
    &&& forall|i: int|
        0 <= i < p.literals@.len() ==> wf_val(view_of(#[trigger] p.literals@[i]))
    &&& wf_val(p.rule_tree@)
}

/// Equality of two strings, character for character.
pub fn str_eq(a: &str, b: &str) -> (r: bool)
    ensures
        r == (a@ == b@),
{
    let na = a.unicode_len();
    let nb = b.unicode_len();
    if na != nb {
        proof {
            assert(a@ != b@);
        }
        return false;
    }
    let mut i: usize = 0;
    while i < na
        invariant
            i <= na,
            na == a@.len(),
            nb == b@.len(),
            na == nb,
            forall|j: int| 0 <= j < i ==> a@[j] == b@[j],
        decreases na - i,
    {
        if a.get_char(i) != b.get_char(i) {
            return false;
        }
        i = i + 1;
    }
    proof {
        assert(a@ =~= b@);
    }
    true
}

/// A rule-tree node collides with the matching data subdocument: some
/// rule leaf sits at a path where the data already holds a value.
pub open spec fn tree_conflict(tree: SpecValue, dv: SpecValue) -> bool
    decreases tree, 0int,
{
    match tree {
        SpecValue::Obj(s) => kv_conflict(s, dv, 0),
        _ => false,
    }
}

pub open spec fn kv_conflict(s: Seq<(SpecValue, SpecValue)>, dv: SpecValue, i: nat) -> bool
    decreases s, 1int, s.len() - i,
{
    if i < s.len() {
        let sub = spec_index(dv, s[i as int].0);
        let child = s[i as int].1;
        let here = if sub is Undefined {
            false
        } else {
            match child {
                SpecValue::Num { .. } => true,
                SpecValue::Obj(_) => tree_conflict(child, sub),
                _ => false,
            }
        };
        here || kv_conflict(s, dv, i + 1)
    } else {
        false
    }
}

impl Program {
    /// An empty program: no instructions, no rules, no entry points.
    pub fn new_empty() -> (r: Program)
        ensures
            prog_wf(r),
            r.instructions@.len() == 0,
            r.rule_infos@.len() == 0,
            r.entry_points@.len() == 0,
    {
        Program {
            instructions: Vec::new(),
            literals: Vec::new(),
            rule_infos: Vec::new(),
            instruction_data: InstructionData::new_empty(),
            rule_tree: Value::new_object(),
            entry_points: Vec::new(),
            builtin_info_table: Vec::new(),
            main_entry_point: 0,
            dispatch_window_size: 2,
        }
    }

    /// Decide program well-formedness at run time, so a host holding an
    /// arbitrary program can test it before loading.
    pub fn validate(&self) -> (b: bool)
        ensures
            b == prog_wf(*self),
    {
        let n = self.literals.len();
        let mut i: usize = 0;
        while i < n
            invariant
                i <= n,
                n == self.literals@.len(),
                forall|j: int| 0 <= j < i ==> wf_val(view_of(#[trigger] self.literals@[j])),
            decreases n - i,
        {
            if !crate::value::value_is_wf(&self.literals[i]) {
                return false;
            }
            i = i + 1;
        }
        crate::value::value_is_wf(&self.rule_tree)
    }

    /// Look an entry point up by name.
    pub fn get_entry_point(&self, name: &str) -> (r: Option<usize>)
        ensures
            r matches Some(pc) ==> exists|i: int|
                0 <= i < self.entry_points@.len() && #[trigger] self.entry_points@[i].0@ == name@
                    && self.entry_points@[i].1 == pc,
            r is None ==> forall|i: int|
                0 <= i < self.entry_points@.len() ==> #[trigger] self.entry_points@[i].0@ != name@,
    {
        let n = self.entry_points.len();
        let mut i: usize = 0;
        while i < n
            invariant
                i <= n,
                n == self.entry_points@.len(),
                forall|j: int| 0 <= j < i ==> #[trigger] self.entry_points@[j].0@ != name@,
            decreases n - i,
        {
            if str_eq(self.entry_points[i].0.as_str(), name) {
                return Some(self.entry_points[i].1);
            }
            i = i + 1;
        }
        None
    }

    /// Report a collision between the rule tree's `data` branch and a
    /// data document, as setting that document must refuse it.
    pub fn check_rule_data_conflicts(&self, data: &Value) -> (r: Result<(), VmError>)
        requires
            prog_wf(*self),
            wf_val(data@),
        ensures
            r is Ok <==> !tree_conflict(spec_index(self.rule_tree@, SpecValue::Text("data"@)), data@),
            r matches Err(e) ==> e is RuleDataConflict,
    {
        let key = Value::Text("data".to_owned());
        proof {
            reveal_strlit("data");
        }
        let node = crate::containers::value_index(&self.rule_tree, &key);
        if node_conflicts(&node, data) {
            Err(VmError::RuleDataConflict("data overlaps a rule-defined path".to_owned()))
        } else {
            Ok(())
        }
    }
}

/// Walk a rule-tree node against the matching data subdocument.
fn node_conflicts(tree: &Value, dv: &Value) -> (r: bool)
    requires
        wf_val(tree@),
        wf_val(dv@),
    ensures
        r == tree_conflict(tree@, dv@),
    decreases *tree, 0int,
{
    match tree {
        Value::Obj(entries) => {
            proof {
                crate::value::lemma_wf_obj(kvs_view(entries@));
                crate::value::lemma_kvs_view_wf(entries@);
            }
            let ghost v0 = kvs_view(entries@);
            let n = entries.len();
            let mut i: usize = 0;
            while i < n
                invariant
                    i <= n,
                    n == entries@.len(),
                    v0 == kvs_view(entries@),
                    wf_val(tree@),
                    *tree == Value::Obj(*entries),
                    tree@ == SpecValue::Obj(v0),
                    wf_val(dv@),
                    forall|j: int|
                        0 <= j < entries@.len() ==> wf_val(view_of(#[trigger] entries@[j].0))
                            && wf_val(view_of(entries@[j].1)),
                    kv_conflict(v0, dv@, 0) == kv_conflict(v0, dv@, i as nat),
                decreases n - i,
            {
                proof {
                    assert(v0[i as int] == (
                        view_of(entries@[i as int].0),
                        view_of(entries@[i as int].1),
                    ));
                }
                let sub = crate::containers::value_index(dv, &entries[i].0);
                if !crate::value::is_undefined(&sub) {
                    match &entries[i].1 {
                        Value::Num(_) => {
                            return true;
                        },
                        Value::Obj(_) => {
                            proof {
                                assert(decreases_to!(*tree => *entries));
                                assert(decreases_to!(*entries => entries@[i as int]));
                                assert(decreases_to!(entries@[i as int] => entries@[i as int].1));
                            }
                            if node_conflicts(&entries[i].1, &sub) {
                                return true;
                            }
                        },
                        _ => {},
                    }
                }
                i = i + 1;
            }
            false
        },
        _ => false,
    }
}

} // verus!
