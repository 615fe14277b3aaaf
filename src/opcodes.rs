use vstd::prelude::*;

verus! {

/// The kind of an operand, which fixes how its text is read and how many
/// bytes it encodes to. Label operands are not supported: a label name is no
/// value of any kind, so an instruction that uses one fails to assemble with
/// an operand type mismatch.
#[derive(Clone, Copy, Debug, PartialEq, Eq, Structural)]
pub enum OperandKind {
    /// A register, written `r` followed by its number (0 to 255); one byte.
    Register,
    /// An unsigned 8-bit immediate; one byte.
    ImmediateU8,
    /// An unsigned 16-bit immediate; two bytes, little-endian.
    ImmediateU16,
}

/// The number of bytes an operand of kind `k` encodes to.
pub open spec fn width(k: OperandKind) -> nat {
    match k {
        OperandKind::Register => 1,
        OperandKind::ImmediateU8 => 1,
        OperandKind::ImmediateU16 => 2,
    }
}

/// The model of an opcode entry.
pub ghost struct EntryModel {
    pub mnemonic: Seq<u8>,
    pub opcode: u8,
    pub operands: Seq<OperandKind>,
}

/// One instruction of the target machine: its mnemonic, its opcode byte and
/// the kinds of its operands in order.
#[derive(Debug)]
pub struct OpcodeEntry {
    pub mnemonic: Vec<u8>,
    pub opcode: u8,
    pub operands: Vec<OperandKind>,
}

impl View for OpcodeEntry {
    type V = EntryModel;

    open spec fn view(&self) -> EntryModel {
        EntryModel { mnemonic: self.mnemonic@, opcode: self.opcode, operands: self.operands@ }
    }
}

/// The index of the first entry at or after `i` whose mnemonic is `m`.
pub open spec fn index_from(t: Seq<EntryModel>, m: Seq<u8>, i: int) -> Option<int>
    decreases t.len() - i,
{
    if i < 0 || i >= t.len() {
        None
    } else if t[i].mnemonic == m {
        Some(i)
    } else {
        index_from(t, m, i + 1)
    }
}

/// The entry of the table `t` for mnemonic `m`, if it has one.
pub open spec fn lookup(t: Seq<EntryModel>, m: Seq<u8>) -> Option<EntryModel> {
    match index_from(t, m, 0) {
        Some(k) => Some(t[k]),
        None => None,
    }
}

/// Whether no two entries of `t` share a mnemonic.
pub open spec fn mnemonics_distinct(t: Seq<EntryModel>) -> bool {
    forall|i: int, j: int|
        0 <= i < t.len() && 0 <= j < t.len() && i != j ==> t[i].mnemonic != t[j].mnemonic
}

/// Whether no operand text can be read as both kinds: a register is written
/// `r` followed by a number, an immediate as a bare number.
pub open spec fn kinds_exclusive(a: OperandKind, b: OperandKind) -> bool {
    (a == OperandKind::Register) != (b == OperandKind::Register)
}

/// Whether no operand list fits both shapes: they differ in length, or in
/// some position one expects a register and the other an immediate.
pub open spec fn shapes_exclusive(a: Seq<OperandKind>, b: Seq<OperandKind>) -> bool {
    a.len() != b.len() || exists|i: int| 0 <= i < a.len() && #[trigger] kinds_exclusive(a[i], b[i])
}

/// Whether every entry of `t` with opcode `opcode` has an operand shape
/// exclusive of `operands`.
pub open spec fn opcode_fits(t: Seq<EntryModel>, opcode: u8, operands: Seq<OperandKind>) -> bool {
    forall|k: int| 0 <= k < t.len() && (#[trigger] t[k]).opcode == opcode ==> shapes_exclusive(t[k].operands, operands)
}

/// Whether two entries of `t` share an opcode only where their operand
/// shapes are exclusive.
pub open spec fn opcodes_distinct(t: Seq<EntryModel>) -> bool {
    forall|i: int, j: int|
        0 <= i < t.len() && 0 <= j < t.len() && i != j && t[i].opcode == t[j].opcode
            ==> shapes_exclusive(t[i].operands, t[j].operands)
}

/// Whether operand lists of shapes `a` and `b` can never be confused.
pub fn shapes_differ(a: &Vec<OperandKind>, b: &Vec<OperandKind>) -> (r: bool)
    ensures
        r == shapes_exclusive(a@, b@),
{
    if a.len() != b.len() {
        return true;
    }
    let mut i: usize = 0;
    while i < a.len()
        invariant
            a@.len() == b@.len(),
            i <= a@.len(),
            forall|k: int| 0 <= k < i ==> !kinds_exclusive(a@[k], b@[k]),
        decreases a@.len() - i,
    {
        let ra = match a[i] {
            OperandKind::Register => true,
            _ => false,
        };
        let rb = match b[i] {
            OperandKind::Register => true,
            _ => false,
        };
        if ra != rb {
            assert(kinds_exclusive(a@[i as int], b@[i as int]));
            return true;
        }
        i = i + 1;
    }
    false
}

pub proof fn lemma_index_from(t: Seq<EntryModel>, m: Seq<u8>, i: int)
    requires
        0 <= i <= t.len(),
    ensures
        index_from(t, m, i) is None <==> forall|k: int| i <= k < t.len() ==> t[k].mnemonic != m,
        index_from(t, m, i) matches Some(k) ==> i <= k < t.len() && t[k].mnemonic == m,
    decreases t.len() - i,
{
    if i < t.len() {
        lemma_index_from(t, m, i + 1);
    }
}

/// A registry from mnemonic to opcode entry. Mnemonics are unique: each maps
/// to exactly one entry. Lookup is an exact, case-sensitive match.
#[derive(Debug)]
pub struct OpcodeTable {
    entries: Vec<OpcodeEntry>,
}

impl View for OpcodeTable {
    type V = Seq<EntryModel>;

    closed spec fn view(&self) -> Seq<EntryModel> {
        self.entries@.map_values(|e: OpcodeEntry| e@)
    }
}

/// Whether `a` holds the same bytes as `src[start..end]`.
pub fn same_bytes(a: &[u8], src: &[u8], start: usize, end: usize) -> (r: bool)
    requires
        start <= end <= src@.len(),
    ensures
        r == (a@ == src@.subrange(start as int, end as int)),
{
    if a.len() != end - start {
        return false;
    }
    let mut k: usize = 0;
    while k < a.len()
        invariant
            a@.len() == end - start,
            start <= end <= src@.len(),
            k <= a@.len(),
            forall|j: int| 0 <= j < k ==> a@[j] == src@[start + j],
        decreases a@.len() - k,
    {
        if a[k] != src[start + k] {
            assert(a@[k as int] != src@.subrange(start as int, end as int)[k as int]);
            return false;
        }
        k = k + 1;
    }
    assert(a@ =~= src@.subrange(start as int, end as int));
    true
}

impl OpcodeTable {
    /// Each mnemonic maps to one entry, and two entries share an opcode only
    /// where their operand shapes are exclusive.
    pub open spec fn wf(&self) -> bool {
        mnemonics_distinct(self@) && opcodes_distinct(self@)
    }

    /// Whether an entry with `opcode` and operand kinds `operands` would keep
    /// opcodes distinct.
    pub fn opcode_free(&self, opcode: u8, operands: &Vec<OperandKind>) -> (r: bool)
        ensures
            r == opcode_fits(self@, opcode, operands@),
    {
        let mut k: usize = 0;
        while k < self.entries.len()
            invariant
                k <= self@.len(),
                self@.len() == self.entries@.len(),
                forall|j: int| 0 <= j < k && (#[trigger] self@[j]).opcode == opcode ==> shapes_exclusive(self@[j].operands, operands@),
            decreases self.entries@.len() - k,
        {
            let entry = &self.entries[k];
            assert(entry@ == self@[k as int]);
            if entry.opcode == opcode && !shapes_differ(&entry.operands, operands) {
                assert(!shapes_exclusive(self@[k as int].operands, operands@));
                return false;
            }
            k = k + 1;
        }
        true
    }

    /// A table with no entries.
    pub fn new() -> (r: OpcodeTable)
        ensures
            r.wf(),
            r@ == Seq::<EntryModel>::empty(),
    {
        let r = OpcodeTable { entries: Vec::new() };
        assert(r@ =~= Seq::<EntryModel>::empty());
        r
    }

    /// The number of entries.
    pub fn len(&self) -> (r: usize)
        ensures
            r == self@.len(),
    {
        self.entries.len()
    }

    /// The index of the entry whose mnemonic is `src[start..end]`.
    pub fn find(&self, src: &[u8], start: usize, end: usize) -> (r: Option<usize>)
        requires
            start <= end <= src@.len(),
        ensures
            r matches Some(k) ==> index_from(self@, src@.subrange(start as int, end as int), 0)
                == Some(k as int),
            r is None ==> index_from(self@, src@.subrange(start as int, end as int), 0) is None,
    {
        let ghost m = src@.subrange(start as int, end as int);
        let mut i: usize = 0;
        while i < self.entries.len()
            invariant
                start <= end <= src@.len(),
                m == src@.subrange(start as int, end as int),
                i <= self@.len(),
                self@.len() == self.entries@.len(),
                index_from(self@, m, 0) == index_from(self@, m, i as int),
            decreases self.entries@.len() - i,
        {
            if same_bytes(self.entries[i].mnemonic.as_slice(), src, start, end) {
                return Some(i);
            }
            i = i + 1;
        }
        None
    }

    /// The entry at index `k`.
    pub fn entry(&self, k: usize) -> (r: &OpcodeEntry)
        requires
            k < self@.len(),
        ensures
            r@ == self@[k as int],
    {
        &self.entries[k]
    }

    /// Add an entry, unless the table already has one for `mnemonic`, or one
    /// with the same opcode whose operand shape is not exclusive of
    /// `operands`; returns whether it was added.
    pub fn add(&mut self, mnemonic: Vec<u8>, opcode: u8, operands: Vec<OperandKind>) -> (r: bool)
        requires
            old(self).wf(),
        ensures
            final(self).wf(),
            r == (lookup(old(self)@, mnemonic@) is None && opcode_fits(old(self)@, opcode, operands@)),
            r ==> final(self)@ == old(self)@.push(
                EntryModel { mnemonic: mnemonic@, opcode, operands: operands@ },
            ),
            !r ==> final(self)@ == old(self)@,
    {
        let found = self.find(mnemonic.as_slice(), 0, mnemonic.len());
        assert(mnemonic@.subrange(0, mnemonic@.len() as int) =~= mnemonic@);
        if found.is_some() || !self.opcode_free(opcode, &operands) {
            return false;
        }
        proof {
            lemma_index_from(self@, mnemonic@, 0);
        }
        let entry = OpcodeEntry { mnemonic, opcode, operands };
        let ghost before = self@;
        self.entries.push(entry);
        assert(self@ =~= before.push(entry@));
        assert forall|i: int, j: int|
            0 <= i < self@.len() && 0 <= j < self@.len() && i != j && self@[i].opcode == self@[j].opcode
                implies shapes_exclusive(self@[i].operands, self@[j].operands) by {
            if j == before.len() {
                assert(before[i].opcode == opcode);
            } else if i == before.len() {
                assert(before[j].opcode == opcode);
                assert(shapes_exclusive(before[j].operands, operands@));
                if before[j].operands.len() == operands@.len() {
                    let w = choose|w: int| 0 <= w < before[j].operands.len() && #[trigger] kinds_exclusive(before[j].operands[w], operands@[w]);
                    assert(kinds_exclusive(operands@[w], before[j].operands[w]));
                }
            }
        }
        true
    }

    /// The table of the target machine's instruction set.
    pub fn standard() -> (r: OpcodeTable)
        ensures
            r.wf(),
            r@ == seq![EntryModel { mnemonic: seq![0x65u8, 0x72u8, 0x72u8], opcode: 0u8, operands: seq![] }],
    {
        let mut table = OpcodeTable::new();
        table.add(vec![0x65u8, 0x72u8, 0x72u8], 0x00, Vec::new());
        table
    }
}

} // verus!
