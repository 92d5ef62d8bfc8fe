//! Addressing modes, opcode definitions and the table that holds them.

use vstd::hash_map::StringHashMap;
use vstd::prelude::*;

verus! {

/// How an instruction's operand is supplied.
#[derive(Clone, Copy, Debug, PartialEq, Eq, Structural)]
pub enum AddrMode {
    /// No operand.
    Inh,
    /// A constant, or the address of a label.
    Imm,
    /// A memory address.
    Dir,
    /// A register index.
    Reg,
}

impl AddrMode {
    /// The number that stands for the mode in an instruction word.
    pub open spec fn spec_code(self) -> u8 {
        match self {
            AddrMode::Inh => 0,
            AddrMode::Imm => 1,
            AddrMode::Dir => 2,
            AddrMode::Reg => 3,
        }
    }

    /// The mode that a number stands for, if any.
    pub open spec fn spec_from_code(code: u8) -> Option<AddrMode> {
        if code == 0 {
            Some(AddrMode::Inh)
        } else if code == 1 {
            Some(AddrMode::Imm)
        } else if code == 2 {
            Some(AddrMode::Dir)
        } else if code == 3 {
            Some(AddrMode::Reg)
        } else {
            None
        }
    }

    /// The number that stands for the mode in an instruction word.
    pub fn code(self) -> (code: u8)
        ensures
            code == self.spec_code(),
            code < 4,
    {
        match self {
            AddrMode::Inh => 0,
            AddrMode::Imm => 1,
            AddrMode::Dir => 2,
            AddrMode::Reg => 3,
        }
    }

    /// The mode that a number stands for, if any.
    pub fn from_code(code: u8) -> (mode: Option<AddrMode>)
        ensures
            mode == AddrMode::spec_from_code(code),
            mode is Some <==> code < 4,
            mode matches Some(m) ==> m.spec_code() == code,
    {
        if code == 0 {
            Some(AddrMode::Inh)
        } else if code == 1 {
            Some(AddrMode::Imm)
        } else if code == 2 {
            Some(AddrMode::Dir)
        } else if code == 3 {
            Some(AddrMode::Reg)
        } else {
            None
        }
    }
}

/// Every mode is found again from its number.
pub proof fn lemma_mode_code_round_trip(mode: AddrMode)
    ensures
        AddrMode::spec_from_code(mode.spec_code()) == Some(mode),
{
}

/// What the opcode table says of one mnemonic.
#[derive(Clone, Copy, Debug, PartialEq, Eq, Structural)]
pub struct Opcode {
    /// The number of the opcode, in 6 bits.
    pub opcode: u8,
    /// How many arguments follow the mnemonic, 0 to 3.
    pub args: u8,
    /// The opcode may stand without an operand.
    pub inh: bool,
    /// The opcode takes an immediate operand.
    pub imm: bool,
    /// The opcode takes a register operand.
    pub reg: bool,
    /// The opcode takes a direct operand.
    pub dir: bool,
    /// The register slot, 0 or 1, that takes the operand in register mode.
    pub operand_as_reg: Option<u8>,
}

impl Opcode {
    /// The definition keeps to the limits of the instruction format.
    pub open spec fn wf(self) -> bool {
        &&& self.opcode < 64
        &&& self.args <= 3
        &&& self.operand_as_reg matches Some(slot) ==> slot < 2
    }

    /// Tells whether the definition keeps to the limits of the format.
    pub fn is_valid(&self) -> (valid: bool)
        ensures
            valid == self.wf(),
    {
        let slot_fits = match self.operand_as_reg {
            Some(slot) => slot < 2,
            None => true,
        };
        self.opcode < 64 && self.args <= 3 && slot_fits
    }
}

/// The opcode table: a well-formed definition for each known mnemonic.
pub struct OpcodeTable {
    defs: StringHashMap<Opcode>,
}

impl View for OpcodeTable {
    type V = Map<Seq<char>, Opcode>;

    closed spec fn view(&self) -> Map<Seq<char>, Opcode> {
        self.defs@
    }
}

impl OpcodeTable {
    #[verifier::type_invariant]
    spec fn all_wf(self) -> bool {
        forall|name: Seq<char>| #[trigger] self.defs@.contains_key(name) ==> self.defs@[name].wf()
    }

    /// A table that knows no mnemonic.
    pub fn new() -> (table: OpcodeTable)
        ensures
            table@ == Map::<Seq<char>, Opcode>::empty(),
    {
        OpcodeTable { defs: StringHashMap::new() }
    }

    /// Defines `name` as `def`, in place of any earlier definition, if `def`
    /// is well formed; leaves the table as it is if not.
    pub fn insert(&mut self, name: String, def: Opcode) -> (taken: bool)
        ensures
            taken == def.wf(),
            taken ==> final(self)@ == old(self)@.insert(name@, def),
            !taken ==> final(self)@ == old(self)@,
    {
        if def.is_valid() {
            proof {
                use_type_invariant(&*self);
            }
            let mut defs: StringHashMap<Opcode> = StringHashMap::new();
            std::mem::swap(&mut self.defs, &mut defs);
            defs.insert(name, def);
            std::mem::swap(&mut self.defs, &mut defs);
            true
        } else {
            false
        }
    }

    /// The definition of `name`, if the table has one.
    pub fn get(&self, name: &str) -> (def: Option<Opcode>)
        ensures
            def == (if self@.contains_key(name@) {
                Some(self@[name@])
            } else {
                None
            }),
            def matches Some(d) ==> d.wf(),
    {
        proof {
            use_type_invariant(self);
        }
        match self.defs.get(name) {
            Some(def) => Some(*def),
            None => None,
        }
    }
}

} // verus!
