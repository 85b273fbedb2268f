use vstd::prelude::*;
use vstd::string::StringSliceAdditionalSpecFns;
use vstd::utf8::encode_utf8;
use crate::text::{dec_digits, push_dec};

verus! {

/// The instructions the hash scanner tells apart, decoded from A64 words.
#[derive(Clone, Copy, Debug, PartialEq, Eq, Structural)]
pub enum A64Instr {
    /// `ret`.
    Ret,
    /// `movz Xd, #imm16, lsl #shift`.
    Movz { imm16: u16, rd: u8 },
    /// `movk Xd, #imm16, lsl #shift`.
    Movk { imm16: u16, rd: u8 },
    /// `subs Xd, Xn, Xm` (shifted register): its `Xm` operand.
    Subs { rm: u8 },
    /// Any other instruction.
    Other,
}

/// One word of code: its raw encoding and what it decodes to (`None` when it
/// is not a valid instruction).
#[derive(Clone, Copy, Debug)]
pub struct DecodedWord {
    pub raw: u32,
    pub instr: Option<A64Instr>,
}

pub open spec fn spec_movk_offset(instr: u32) -> u32 {
    (instr & 0x0060_0000u32) >> 21u32
}

/// The `hw` field (bits 21..23) of a move-wide instruction: the left shift
/// of its immediate, in units of sixteen bits.
pub fn get_movk_offset(instr: u32) -> (r: u32)
    ensures
        r == spec_movk_offset(instr),
        r < 4,
{
    assert((instr & 0x0060_0000u32) >> 21u32 < 4) by (bit_vector);
    (instr & 0x0060_0000) >> 21
}

/// The scan stops at this word: it does not decode, or it is a `ret`.
pub open spec fn stops(w: DecodedWord) -> bool {
    match w.instr {
        None => true,
        Some(A64Instr::Ret) => true,
        _ => false,
    }
}

/// The index of the first word at or after `i` where the scan stops (the
/// length of `code` when it never does).
pub open spec fn stop_index_from(code: Seq<DecodedWord>, i: nat) -> nat
    decreases code.len() - i,
{
    if i >= code.len() || stops(code[i as int]) {
        i
    } else {
        stop_index_from(code, i + 1)
    }
}

pub open spec fn stop_index(code: Seq<DecodedWord>) -> nat {
    stop_index_from(code, 0)
}

/// The registers a word reads or writes are real registers (0..31; 31 would
/// be the zero register, which the scanner does not model).
pub open spec fn registers_ok(w: DecodedWord) -> bool {
    match w.instr {
        Some(A64Instr::Movz { rd, .. }) => rd < 31,
        Some(A64Instr::Movk { rd, .. }) => rd < 31,
        Some(A64Instr::Subs { rm }) => rm < 31,
        _ => true,
    }
}

/// The effect of one word on the registers and on the hashes collected so far:
/// `movz` sets a register, `movk` ors its shifted immediate into one, `subs`
/// collects the value of its `Xm` register.
pub open spec fn step(regs: Seq<u64>, hashes: Seq<u64>, w: DecodedWord) -> (Seq<u64>, Seq<u64>) {
    match w.instr {
        Some(A64Instr::Movz { imm16, rd }) => (regs.update(rd as int, imm16 as u64), hashes),
        Some(A64Instr::Movk { imm16, rd }) => (
            regs.update(
                rd as int,
                regs[rd as int] | ((imm16 as u64) << ((spec_movk_offset(w.raw) * 16) as u64)),
            ),
            hashes,
        ),
        Some(A64Instr::Subs { rm }) => (regs, hashes.push(regs[rm as int])),
        _ => (regs, hashes),
    }
}

/// Registers and collected hashes after the first `n` words, starting from
/// 31 zeroed registers.
pub open spec fn run(code: Seq<DecodedWord>, n: nat) -> (Seq<u64>, Seq<u64>)
    decreases n,
{
    if n == 0 {
        (Seq::new(31, |_i: int| 0u64), Seq::empty())
    } else {
        let prev = run(code, (n - 1) as nat);
        step(prev.0, prev.1, code[n - 1])
    }
}

/// How many `subs` instructions lie among the first `n` words.
pub open spec fn subs_count(code: Seq<DecodedWord>, n: nat) -> nat
    decreases n,
{
    if n == 0 {
        0
    } else {
        subs_count(code, (n - 1) as nat) + if code[n - 1].instr matches Some(A64Instr::Subs { .. }) {
            1nat
        } else {
            0nat
        }
    }
}

proof fn lemma_stop_index(code: Seq<DecodedWord>, i: nat)
    requires
        i <= code.len(),
        forall|j: int| 0 <= j < i ==> !stops(code[j]),
    ensures
        i <= stop_index_from(code, i) <= code.len(),
        stop_index_from(code, i) == stop_index(code),
        forall|j: int| 0 <= j < stop_index_from(code, i) ==> !stops(code[j]),
        stop_index_from(code, i) < code.len() ==> stops(code[stop_index_from(code, i) as int]),
    decreases i,
{
    if i > 0 {
        lemma_stop_index(code, (i - 1) as nat);
    }
    lemma_stop_index_fwd(code, i);
}

proof fn lemma_stop_index_fwd(code: Seq<DecodedWord>, i: nat)
    requires
        i <= code.len(),
    ensures
        i <= stop_index_from(code, i) <= code.len(),
        forall|j: int| i <= j < stop_index_from(code, i) ==> !stops(code[j]),
        stop_index_from(code, i) < code.len() ==> stops(code[stop_index_from(code, i) as int]),
    decreases code.len() - i,
{
    if i < code.len() && !stops(code[i as int]) {
        lemma_stop_index_fwd(code, i + 1);
    }
}

proof fn lemma_run_shape(code: Seq<DecodedWord>, n: nat)
    requires
        n <= code.len(),
        forall|j: int| 0 <= j < n ==> registers_ok(#[trigger] code[j]),
    ensures
        run(code, n).0.len() == 31,
        run(code, n).1.len() == subs_count(code, n),
    decreases n,
{
    if n > 0 {
        lemma_run_shape(code, (n - 1) as nat);
        assert(registers_ok(code[n - 1]));
    }
}

/// Collects the hash constants an agent creator compares against: simulates
/// its code from the start, keeping 31 registers (all zero at first), where
/// `movz` sets a register, `movk` ors its immediate, shifted by its `hw`
/// field, into one, and each `subs` collects the value of its `Xm` register.
/// The scan stops at a `ret`, at a word that does not decode, or at the end
/// of `code`.
pub fn get_hashes(code: &[DecodedWord]) -> (hashes: Vec<u64>)
    requires
        forall|j: int| 0 <= j < stop_index(code@) ==> registers_ok(#[trigger] code@[j]),
    ensures
        hashes@ == run(code@, stop_index(code@)).1,
        hashes@.len() == subs_count(code@, stop_index(code@)),
{
    let mut hashes: Vec<u64> = Vec::new();
    let mut cpu: Vec<u64> = Vec::new();
    let mut k: usize = 0;
    while k < 31
        invariant
            k <= 31,
            cpu@ == Seq::new(k as nat, |_i: int| 0u64),
        decreases 31 - k,
    {
        cpu.push(0);
        k = k + 1;
        assert(cpu@ =~= Seq::new(k as nat, |_i: int| 0u64));
    }
    proof {
        lemma_stop_index(code@, 0);
    }
    let mut i: usize = 0;
    while i < code.len()
        invariant_except_break
            i <= stop_index(code@),
            stop_index(code@) <= code@.len(),
            forall|j: int| 0 <= j < stop_index(code@) ==> registers_ok(#[trigger] code@[j]),
            forall|j: int| 0 <= j < stop_index(code@) ==> !stops(code@[j]),
            stop_index(code@) < code@.len() ==> stops(code@[stop_index(code@) as int]),
            (cpu@, hashes@) == run(code@, i as nat),
        ensures
            (cpu@, hashes@) == run(code@, stop_index(code@)),
        decreases code@.len() - i,
    {
        let w = code[i];
        proof {
            lemma_run_shape(code@, i as nat);
        }
        match w.instr {
            None => {
                break;
            },
            Some(A64Instr::Ret) => {
                break;
            },
            Some(A64Instr::Movz { imm16, rd }) => {
                assert(registers_ok(code@[i as int]));
                cpu.set(rd as usize, imm16 as u64);
            },
            Some(A64Instr::Movk { imm16, rd }) => {
                assert(registers_ok(code@[i as int]));
                let offset = get_movk_offset(w.raw) * 16;
                let v = cpu[rd as usize] | ((imm16 as u64) << (offset as u64));
                cpu.set(rd as usize, v);
            },
            Some(A64Instr::Subs { rm }) => {
                assert(registers_ok(code@[i as int]));
                hashes.push(cpu[rm as usize]);
            },
            Some(A64Instr::Other) => {},
        }
        i = i + 1;
    }
    proof {
        lemma_run_shape(code@, stop_index(code@));
    }
    hashes
}

/// The mangled name of the agent-creator function of kind `func` in the
/// fighter module `fighter`.
pub open spec fn sym_text(fighter: Seq<char>, func: Seq<char>) -> Seq<char> {
    let name = "create_agent_fighter_"@ + func + "_"@ + fighter;
    "_ZN7lua2cpp"@ + dec_digits(encode_utf8(name).len()) + name
        + "EN3phx6Hash40EPN3app12BattleObjectEPNS2_26BattleObjectModuleAccessorEP9lua_State"@
}

/// The Itanium-mangled symbol of
/// `lua2cpp::create_agent_fighter_{func}_{fighter}(phx::Hash40, app::BattleObject*,
/// app::BattleObjectModuleAccessor*, lua_State*)`: the function name is
/// prefixed by its length in bytes.
pub fn make_sym(fighter: &str, func: &str) -> (sym: String)
    ensures
        sym@ == sym_text(fighter@, func@),
{
    let mut name = String::from_str("create_agent_fighter_");
    name.append(func);
    name.append("_");
    name.append(fighter);
    let mut out = String::from_str("_ZN7lua2cpp");
    let n = name.as_str().as_bytes().len();
    push_dec(&mut out, n);
    out.append(name.as_str());
    out.append("EN3phx6Hash40EPN3app12BattleObjectEPNS2_26BattleObjectModuleAccessorEP9lua_State");
    out
}

/// Each creator kind hooks its own symbol: the kind part of the symbol names
/// of two different kinds differ, so no creator is hooked twice and none is
/// missed. In particular a shared creator's symbol is the plain one's
/// followed by `_share`.
pub proof fn lemma_kind_text_injective(k1: CreatorKind, k2: CreatorKind)
    ensures
        k1 != k2 ==> kind_text(k1) != kind_text(k2),
        kind_text(CreatorKind::EffectShare) == kind_text(CreatorKind::Effect) + "_share"@,
        kind_text(CreatorKind::ExpressionShare) == kind_text(CreatorKind::Expression) + "_share"@,
        kind_text(CreatorKind::GameShare) == kind_text(CreatorKind::Game) + "_share"@,
        kind_text(CreatorKind::SoundShare) == kind_text(CreatorKind::Sound) + "_share"@,
        kind_text(CreatorKind::Effect) == "animcmd_"@ + "effect"@,
        kind_text(CreatorKind::Expression) == "animcmd_"@ + "expression"@,
        kind_text(CreatorKind::Game) == "animcmd_"@ + "game"@,
        kind_text(CreatorKind::Sound) == "animcmd_"@ + "sound"@,
        kind_text(CreatorKind::Status) == "status_"@ + "script"@,
{
    reveal_strlit("animcmd_effect");
    reveal_strlit("animcmd_effect_share");
    reveal_strlit("animcmd_expression");
    reveal_strlit("animcmd_expression_share");
    reveal_strlit("animcmd_game");
    reveal_strlit("animcmd_game_share");
    reveal_strlit("animcmd_sound");
    reveal_strlit("animcmd_sound_share");
    reveal_strlit("status_script");
    reveal_strlit("_share");
    reveal_strlit("animcmd_");
    reveal_strlit("status_");
    reveal_strlit("effect");
    reveal_strlit("expression");
    reveal_strlit("game");
    reveal_strlit("sound");
    reveal_strlit("script");
    assert(kind_text(CreatorKind::EffectShare) =~= kind_text(CreatorKind::Effect) + "_share"@);
    assert(kind_text(CreatorKind::ExpressionShare) =~= kind_text(CreatorKind::Expression) + "_share"@);
    assert(kind_text(CreatorKind::GameShare) =~= kind_text(CreatorKind::Game) + "_share"@);
    assert(kind_text(CreatorKind::SoundShare) =~= kind_text(CreatorKind::Sound) + "_share"@);
    assert(kind_text(CreatorKind::Effect) =~= "animcmd_"@ + "effect"@);
    assert(kind_text(CreatorKind::Expression) =~= "animcmd_"@ + "expression"@);
    assert(kind_text(CreatorKind::Game) =~= "animcmd_"@ + "game"@);
    assert(kind_text(CreatorKind::Sound) =~= "animcmd_"@ + "sound"@);
    assert(kind_text(CreatorKind::Status) =~= "status_"@ + "script"@);
    if k1 != k2 && kind_text(k1) == kind_text(k2) {
        let a = kind_text(k1);
        let b = kind_text(k2);
        assert(a.len() == b.len());
        assert(a[0] == b[0]);
        assert(a[8] == b[8]);
        assert(a[9] == b[9]);
        assert(a[a.len() - 1] == b[b.len() - 1]);
        assert(false);
    }
}

/// Every creator kind receives the replacements of a fixed script category:
/// effect creators (plain and shared) the EFFECT scripts, expression ones the
/// EXPRESSION scripts, game ones the GAME scripts, sound ones the SOUND
/// scripts; the status creator receives status replacements instead. A
/// shared creator uses the same category as the plain one.
pub proof fn lemma_kind_categories()
    ensures
        kind_category(CreatorKind::Effect) == Some(crate::scripts::ScriptCategory::EFFECT),
        kind_category(CreatorKind::EffectShare) == Some(crate::scripts::ScriptCategory::EFFECT),
        kind_category(CreatorKind::Expression) == Some(crate::scripts::ScriptCategory::EXPRESSION),
        kind_category(CreatorKind::ExpressionShare) == Some(crate::scripts::ScriptCategory::EXPRESSION),
        kind_category(CreatorKind::Game) == Some(crate::scripts::ScriptCategory::GAME),
        kind_category(CreatorKind::GameShare) == Some(crate::scripts::ScriptCategory::GAME),
        kind_category(CreatorKind::Sound) == Some(crate::scripts::ScriptCategory::SOUND),
        kind_category(CreatorKind::SoundShare) == Some(crate::scripts::ScriptCategory::SOUND),
        kind_category(CreatorKind::Status) is None,
{
}

/// The agent creators of a fighter module that are hooked, in the order they are set up.
#[derive(Clone, Copy, Debug, PartialEq, Eq, Structural)]
pub enum CreatorKind {
    Effect,
    EffectShare,
    Expression,
    ExpressionShare,
    Game,
    GameShare,
    Sound,
    SoundShare,
    Status,
}

/// The part of the creator's symbol that names its kind.
pub open spec fn kind_text(k: CreatorKind) -> Seq<char> {
    match k {
        CreatorKind::Effect => "animcmd_effect"@,
        CreatorKind::EffectShare => "animcmd_effect_share"@,
        CreatorKind::Expression => "animcmd_expression"@,
        CreatorKind::ExpressionShare => "animcmd_expression_share"@,
        CreatorKind::Game => "animcmd_game"@,
        CreatorKind::GameShare => "animcmd_game_share"@,
        CreatorKind::Sound => "animcmd_sound"@,
        CreatorKind::SoundShare => "animcmd_sound_share"@,
        CreatorKind::Status => "status_script"@,
    }
}

/// The script category whose replacements agents of this kind receive
/// (a shared creator uses the same category as the plain one); the status
/// creator receives status replacements instead.
pub open spec fn kind_category(k: CreatorKind) -> Option<crate::scripts::ScriptCategory> {
    match k {
        CreatorKind::Effect => Some(crate::scripts::ScriptCategory::EFFECT),
        CreatorKind::EffectShare => Some(crate::scripts::ScriptCategory::EFFECT),
        CreatorKind::Expression => Some(crate::scripts::ScriptCategory::EXPRESSION),
        CreatorKind::ExpressionShare => Some(crate::scripts::ScriptCategory::EXPRESSION),
        CreatorKind::Game => Some(crate::scripts::ScriptCategory::GAME),
        CreatorKind::GameShare => Some(crate::scripts::ScriptCategory::GAME),
        CreatorKind::Sound => Some(crate::scripts::ScriptCategory::SOUND),
        CreatorKind::SoundShare => Some(crate::scripts::ScriptCategory::SOUND),
        CreatorKind::Status => None,
    }
}

impl CreatorKind {
    /// The part of the creator's symbol that names its kind.
    pub fn symbol_kind(&self) -> (r: &'static str)
        ensures
            r@ == kind_text(*self),
    {
        match self {
            CreatorKind::Effect => "animcmd_effect",
            CreatorKind::EffectShare => "animcmd_effect_share",
            CreatorKind::Expression => "animcmd_expression",
            CreatorKind::ExpressionShare => "animcmd_expression_share",
            CreatorKind::Game => "animcmd_game",
            CreatorKind::GameShare => "animcmd_game_share",
            CreatorKind::Sound => "animcmd_sound",
            CreatorKind::SoundShare => "animcmd_sound_share",
            CreatorKind::Status => "status_script",
        }
    }

    /// The script category whose replacements this kind of agent receives.
    pub fn category(&self) -> (r: Option<crate::scripts::ScriptCategory>)
        ensures
            r == kind_category(*self),
    {
        match self {
            CreatorKind::Effect => Some(crate::scripts::ScriptCategory::EFFECT),
            CreatorKind::EffectShare => Some(crate::scripts::ScriptCategory::EFFECT),
            CreatorKind::Expression => Some(crate::scripts::ScriptCategory::EXPRESSION),
            CreatorKind::ExpressionShare => Some(crate::scripts::ScriptCategory::EXPRESSION),
            CreatorKind::Game => Some(crate::scripts::ScriptCategory::GAME),
            CreatorKind::GameShare => Some(crate::scripts::ScriptCategory::GAME),
            CreatorKind::Sound => Some(crate::scripts::ScriptCategory::SOUND),
            CreatorKind::SoundShare => Some(crate::scripts::ScriptCategory::SOUND),
            CreatorKind::Status => None,
        }
    }
}

/// A hooked agent creator: the game's original creator function and the
/// agent hashes it creates.
pub struct CreateAgentInfo {
    pub original: u64,
    pub hashes: Vec<u64>,
}

/// The creator of one kind found in a module.
pub struct CreatorEntry {
    /// Name of the module that holds it.
    pub module: String,
    pub info: CreateAgentInfo,
}

/// A creator as the contracts see it: its module's name (as bytes), its
/// original function and its agent hashes.
pub open spec fn entry_view(e: CreatorEntry) -> (Seq<u8>, u64, Seq<u64>) {
    (encode_utf8(e.module@), e.info.original, e.info.hashes@)
}

/// The creators of one kind, at most one per module, in the order their
/// modules were first loaded.
pub struct CreatorTable {
    pub entries: Vec<CreatorEntry>,
}

/// No module occurs twice.
pub open spec fn distinct_modules(s: Seq<(Seq<u8>, u64, Seq<u64>)>) -> bool {
    forall|i: int, j: int| 0 <= i < j < s.len() ==> s[i].0 != s[j].0
}

/// Index of the entry of `module` in `s`, searching from `i`; `s.len()` when there is none.
pub open spec fn index_of_module(s: Seq<(Seq<u8>, u64, Seq<u64>)>, module: Seq<u8>, i: nat) -> nat
    decreases s.len() - i,
{
    if i >= s.len() || s[i as int].0 == module {
        i
    } else {
        index_of_module(s, module, i + 1)
    }
}

/// The table after recording the creator `(original, hashes)` of `module`:
/// it replaces the module's entry in place, or is appended when the module
/// has none.
pub open spec fn with_creator(
    s: Seq<(Seq<u8>, u64, Seq<u64>)>,
    module: Seq<u8>,
    original: u64,
    hashes: Seq<u64>,
) -> Seq<(Seq<u8>, u64, Seq<u64>)> {
    let k = index_of_module(s, module, 0);
    if k < s.len() {
        s.update(k as int, (module, original, hashes))
    } else {
        s.push((module, original, hashes))
    }
}

/// The table without the entry of `module`.
pub open spec fn without_module(s: Seq<(Seq<u8>, u64, Seq<u64>)>, module: Seq<u8>) -> Seq<
    (Seq<u8>, u64, Seq<u64>),
> {
    let k = index_of_module(s, module, 0);
    if k < s.len() {
        s.remove(k as int)
    } else {
        s
    }
}

/// Index of the first creator at or after `i` whose hashes include `hash`;
/// `s.len()` when none does.
pub open spec fn index_of_hash(s: Seq<(Seq<u8>, u64, Seq<u64>)>, hash: u64, i: nat) -> nat
    decreases s.len() - i,
{
    if i >= s.len() || s[i as int].2.contains(hash) {
        i
    } else {
        index_of_hash(s, hash, i + 1)
    }
}

proof fn lemma_index_of_module(s: Seq<(Seq<u8>, u64, Seq<u64>)>, module: Seq<u8>, i: nat)
    ensures
        i <= index_of_module(s, module, i) <= s.len() || (i > s.len() && index_of_module(s, module, i) == i),
        forall|j: int| i <= j < index_of_module(s, module, i) && j < s.len() ==> s[j].0 != module,
        index_of_module(s, module, i) < s.len() ==> s[index_of_module(s, module, i) as int].0
            == module,
    decreases s.len() - i,
{
    if !(i >= s.len() || s[i as int].0 == module) {
        lemma_index_of_module(s, module, i + 1);
    }
}

proof fn lemma_index_of_hash(s: Seq<(Seq<u8>, u64, Seq<u64>)>, hash: u64, i: nat)
    ensures
        i <= index_of_hash(s, hash, i) <= s.len() || (i > s.len() && index_of_hash(s, hash, i) == i),
        forall|j: int| i <= j < index_of_hash(s, hash, i) && j < s.len() ==> !s[j].2.contains(hash),
        index_of_hash(s, hash, i) < s.len() ==> s[index_of_hash(s, hash, i) as int].2.contains(
            hash,
        ),
    decreases s.len() - i,
{
    if !(i >= s.len() || s[i as int].2.contains(hash)) {
        lemma_index_of_hash(s, hash, i + 1);
    }
}

/// Whether `v` holds `x`.
pub fn vec_contains(v: &Vec<u64>, x: u64) -> (r: bool)
    ensures
        r == v@.contains(x),
{
    let mut i: usize = 0;
    while i < v.len()
        invariant
            i <= v@.len(),
            forall|j: int| 0 <= j < i ==> v@[j] != x,
        decreases v@.len() - i,
    {
        if v[i] == x {
            return true;
        }
        i = i + 1;
    }
    false
}

impl CreatorTable {
    pub open spec fn view(&self) -> Seq<(Seq<u8>, u64, Seq<u64>)> {
        self.entries@.map_values(|e: CreatorEntry| entry_view(e))
    }

    pub open spec fn wf(&self) -> bool {
        distinct_modules(self@)
    }

    pub fn new() -> (t: Self)
        ensures
            t@ == Seq::<(Seq<u8>, u64, Seq<u64>)>::empty(),
            t.wf(),
    {
        let t = CreatorTable { entries: Vec::new() };
        assert(t@ =~= Seq::<(Seq<u8>, u64, Seq<u64>)>::empty());
        t
    }

    /// Index of the entry of `module`.
    fn find_module(&self, module: &str) -> (r: usize)
        ensures
            r == index_of_module(self@, module.spec_bytes(), 0),
    {
        let ghost v = self@;
        proof {
            lemma_index_of_module(v, module.spec_bytes(), 0);
        }
        let mut i: usize = 0;
        while i < self.entries.len()
            invariant
                v == self@,
                i <= v.len(),
                forall|j: int| 0 <= j < i ==> v[j].0 != module.spec_bytes(),
                index_of_module(v, module.spec_bytes(), 0) == index_of_module(
                    v,
                    module.spec_bytes(),
                    i as nat,
                ),
            decreases v.len() - i,
        {
            let same = crate::scripts::bytes_eq(
                self.entries[i].module.as_str().as_bytes(),
                module.as_bytes(),
            );
            assert(v[i as int].0 == encode_utf8(self.entries@[i as int].module@));
            if same {
                return i;
            }
            i = i + 1;
        }
        i
    }

    /// Records the creator `info` of `module`, replacing the module's earlier
    /// one in place (as a map insertion would).
    pub fn insert(&mut self, module: &str, info: CreateAgentInfo)
        requires
            old(self).wf(),
        ensures
            final(self).wf(),
            final(self)@ == with_creator(
                old(self)@,
                module.spec_bytes(),
                info.original,
                info.hashes@,
            ),
    {
        let ghost v = self@;
        proof {
            lemma_index_of_module(v, module.spec_bytes(), 0);
        }
        let k = self.find_module(module);
        let entry = CreatorEntry { module: String::from_str(module), info };
        if k < self.entries.len() {
            self.entries.set(k, entry);
        } else {
            self.entries.push(entry);
        }
        assert(self@ =~= with_creator(v, module.spec_bytes(), info.original, info.hashes@));
        proof {
            let w = self@;
            assert forall|i: int, j: int| 0 <= i < j < w.len() implies w[i].0 != w[j].0 by {
                if k < v.len() {
                    if i != k && j != k {
                        assert(w[i] == v[i] && w[j] == v[j]);
                    } else if i == k {
                        assert(w[j] == v[j]);
                    } else {
                        assert(w[i] == v[i]);
                    }
                } else if j == v.len() {
                    assert(w[i] == v[i]);
                } else {
                    assert(w[i] == v[i] && w[j] == v[j]);
                }
            }
        }
    }

    /// Forgets the creator of `module`, if there is one.
    pub fn remove(&mut self, module: &str)
        requires
            old(self).wf(),
        ensures
            final(self).wf(),
            final(self)@ == without_module(old(self)@, module.spec_bytes()),
    {
        let ghost v = self@;
        let k = self.find_module(module);
        if k < self.entries.len() {
            self.entries.remove(k);
        }
        assert(self@ =~= without_module(v, module.spec_bytes()));
        proof {
            let w = self@;
            assert forall|i: int, j: int| 0 <= i < j < w.len() implies w[i].0 != w[j].0 by {
                if k < v.len() {
                    let i2 = if i < k { i } else { i + 1 };
                    let j2 = if j < k { j } else { j + 1 };
                    assert(w[i] == v[i2] && w[j] == v[j2]);
                }
            }
        }
    }

    /// Index of the first creator (in load order) whose agent hashes include
    /// `hash`; `None` when no creator makes that agent.
    pub fn find_creator(&self, hash: u64) -> (r: Option<usize>)
        ensures
            r matches Some(i) ==> i == index_of_hash(self@, hash, 0) && i < self@.len(),
            r is None ==> index_of_hash(self@, hash, 0) == self@.len(),
            r matches Some(i) ==> self@[i as int].2.contains(hash),
            r is None ==> forall|j: int| 0 <= j < self@.len() ==> !self@[j].2.contains(hash),
    {
        let ghost v = self@;
        proof {
            lemma_index_of_hash(v, hash, 0);
        }
        let mut i: usize = 0;
        while i < self.entries.len()
            invariant
                v == self@,
                i <= v.len(),
                forall|j: int| 0 <= j < i ==> !v[j].2.contains(hash),
                index_of_hash(v, hash, 0) == index_of_hash(v, hash, i as nat),
            decreases v.len() - i,
        {
            assert(v[i as int].2 == self.entries@[i as int].info.hashes@);
            if vec_contains(&self.entries[i].info.hashes, hash) {
                return Some(i);
            }
            i = i + 1;
        }
        None
    }
}

/// The hooked agent creators of every kind.
pub struct Creators {
    pub effect: CreatorTable,
    pub effect_share: CreatorTable,
    pub expression: CreatorTable,
    pub expression_share: CreatorTable,
    pub game: CreatorTable,
    pub game_share: CreatorTable,
    pub sound: CreatorTable,
    pub sound_share: CreatorTable,
    pub status: CreatorTable,
}

/// A creator of one kind located in a freshly loaded module: the original
/// function (0 when its symbol was not found) and the agent hashes it makes.
pub struct FoundCreator {
    pub kind: CreatorKind,
    pub original: u64,
    pub hashes: Vec<u64>,
}

/// No kind occurs twice among `found`.
pub open spec fn distinct_kinds(found: Seq<FoundCreator>) -> bool {
    forall|i: int, j: int| 0 <= i < j < found.len() ==> found[i].kind != found[j].kind
}

/// What `set_fighter_funcs` makes of the table of kind `k`: a creator of that
/// kind that was found (original function not 0) is recorded for `module`;
/// otherwise the table is unchanged.
pub open spec fn table_after_set(
    old_table: Seq<(Seq<u8>, u64, Seq<u64>)>,
    module: Seq<u8>,
    found: Seq<FoundCreator>,
    k: CreatorKind,
) -> Seq<(Seq<u8>, u64, Seq<u64>)> {
    if exists|i: int| 0 <= i < found.len() && found[i].kind == k && found[i].original != 0 {
        let i = choose|i: int| 0 <= i < found.len() && found[i].kind == k && found[i].original != 0;
        with_creator(old_table, module, found[i].original, found[i].hashes@)
    } else {
        old_table
    }
}

impl Creators {
    pub open spec fn table(&self, k: CreatorKind) -> &CreatorTable {
        match k {
            CreatorKind::Effect => &self.effect,
            CreatorKind::EffectShare => &self.effect_share,
            CreatorKind::Expression => &self.expression,
            CreatorKind::ExpressionShare => &self.expression_share,
            CreatorKind::Game => &self.game,
            CreatorKind::GameShare => &self.game_share,
            CreatorKind::Sound => &self.sound,
            CreatorKind::SoundShare => &self.sound_share,
            CreatorKind::Status => &self.status,
        }
    }

    pub open spec fn wf(&self) -> bool {
        forall|k: CreatorKind| #[trigger] self.table(k).wf()
    }

    pub fn new() -> (c: Self)
        ensures
            c.wf(),
            forall|k: CreatorKind| #[trigger] c.table(k)@ == Seq::<(Seq<u8>, u64, Seq<u64>)>::empty(),
    {
        Creators {
            effect: CreatorTable::new(),
            effect_share: CreatorTable::new(),
            expression: CreatorTable::new(),
            expression_share: CreatorTable::new(),
            game: CreatorTable::new(),
            game_share: CreatorTable::new(),
            sound: CreatorTable::new(),
            sound_share: CreatorTable::new(),
            status: CreatorTable::new(),
        }
    }

    /// The creators of kind `k`.
    pub fn get_table(&self, k: CreatorKind) -> (t: &CreatorTable)
        ensures
            t == self.table(k),
    {
        match k {
            CreatorKind::Effect => &self.effect,
            CreatorKind::EffectShare => &self.effect_share,
            CreatorKind::Expression => &self.expression,
            CreatorKind::ExpressionShare => &self.expression_share,
            CreatorKind::Game => &self.game,
            CreatorKind::GameShare => &self.game_share,
            CreatorKind::Sound => &self.sound,
            CreatorKind::SoundShare => &self.sound_share,
            CreatorKind::Status => &self.status,
        }
    }

    fn insert_into(&mut self, k: CreatorKind, module: &str, info: CreateAgentInfo)
        requires
            old(self).wf(),
        ensures
            final(self).wf(),
            final(self).table(k)@ == with_creator(
                old(self).table(k)@,
                module.spec_bytes(),
                info.original,
                info.hashes@,
            ),
            forall|o: CreatorKind| o != k ==> #[trigger] final(self).table(o) == old(self).table(o),
    {
        proof {
            assert(self.table(k).wf());
        }
        match k {
            CreatorKind::Effect => self.effect.insert(module, info),
            CreatorKind::EffectShare => self.effect_share.insert(module, info),
            CreatorKind::Expression => self.expression.insert(module, info),
            CreatorKind::ExpressionShare => self.expression_share.insert(module, info),
            CreatorKind::Game => self.game.insert(module, info),
            CreatorKind::GameShare => self.game_share.insert(module, info),
            CreatorKind::Sound => self.sound.insert(module, info),
            CreatorKind::SoundShare => self.sound_share.insert(module, info),
            CreatorKind::Status => self.status.insert(module, info),
        }
        proof {
            assert forall|o: CreatorKind| #[trigger] self.table(o).wf() by {
                if o != k {
                    assert(old(self).table(o).wf());
                }
            }
        }
    }
}

/// Records the creators found in the fighter module `module`: each one whose
/// original function was found (is not 0) becomes that module's creator of
/// its kind; tables of kinds not found are unchanged.
pub fn set_fighter_funcs(creators: &mut Creators, module: &str, found: Vec<FoundCreator>)
    requires
        old(creators).wf(),
        distinct_kinds(found@),
    ensures
        final(creators).wf(),
        forall|k: CreatorKind|
            #[trigger] final(creators).table(k)@ == table_after_set(
                old(creators).table(k)@,
                module.spec_bytes(),
                found@,
                k,
            ),
{
    let ghost all = found@;
    let ghost start = *creators;
    let mut rest = found;
    let ghost mut done: nat = 0;
    while rest.len() > 0
        invariant
            creators.wf(),
            done <= all.len(),
            rest@ == all.subrange(done as int, all.len() as int),
            distinct_kinds(all),
            forall|k: CreatorKind|
                #[trigger] creators.table(k)@ == table_after_set(
                    start.table(k)@,
                    module.spec_bytes(),
                    all.subrange(0, done as int),
                    k,
                ),
        decreases rest@.len(),
    {
        let f = rest.remove(0);
        let ghost before = *creators;
        proof {
            assert(f == all[done as int]);
        }
        if f.original != 0 {
            let kind = f.kind;
            let info = CreateAgentInfo { original: f.original, hashes: f.hashes };
            creators.insert_into(kind, module, info);
        }
        proof {
            let prev = all.subrange(0, done as int);
            let next = all.subrange(0, done + 1 as int);
            assert forall|k: CreatorKind|
                #[trigger] creators.table(k)@ == table_after_set(
                    start.table(k)@,
                    module.spec_bytes(),
                    next,
                    k,
                ) by {
                if k == all[done as int].kind && all[done as int].original != 0 {
                    assert(next[done as int] == all[done as int]);
                    assert(!(exists|i: int| 0 <= i < prev.len() && prev[i].kind == k));
                    let i = choose|i: int|
                        0 <= i < next.len() && next[i].kind == k && next[i].original != 0;
                    assert(i == done);
                } else {
                    if exists|i: int| 0 <= i < next.len() && next[i].kind == k && next[i].original != 0 {
                        let i = choose|i: int|
                            0 <= i < next.len() && next[i].kind == k && next[i].original != 0;
                        assert(prev[i] == next[i]);
                        let i2 = choose|i: int|
                            0 <= i < prev.len() && prev[i].kind == k && prev[i].original != 0;
                        assert(next[i2] == prev[i2]);
                    }
                    if exists|i: int| 0 <= i < prev.len() && prev[i].kind == k && prev[i].original != 0 {
                        let i = choose|i: int|
                            0 <= i < prev.len() && prev[i].kind == k && prev[i].original != 0;
                        assert(next[i] == prev[i]);
                    }
                }
            }
            done = done + 1;
        }
    }
    proof {
        assert(all.subrange(0, done as int) =~= all);
    }
}

/// Forgets every creator of the module `module` (it is being unloaded).
pub fn remove_fighter_funcs(creators: &mut Creators, module: &str)
    requires
        old(creators).wf(),
    ensures
        final(creators).wf(),
        forall|k: CreatorKind|
            #[trigger] final(creators).table(k)@ == without_module(
                old(creators).table(k)@,
                module.spec_bytes(),
            ),
{
    proof {
        assert(creators.table(CreatorKind::Effect).wf());
        assert(creators.table(CreatorKind::EffectShare).wf());
        assert(creators.table(CreatorKind::Expression).wf());
        assert(creators.table(CreatorKind::ExpressionShare).wf());
        assert(creators.table(CreatorKind::Game).wf());
        assert(creators.table(CreatorKind::GameShare).wf());
        assert(creators.table(CreatorKind::Sound).wf());
        assert(creators.table(CreatorKind::SoundShare).wf());
        assert(creators.table(CreatorKind::Status).wf());
    }
    creators.effect.remove(module);
    creators.effect_share.remove(module);
    creators.expression.remove(module);
    creators.expression_share.remove(module);
    creators.game.remove(module);
    creators.game_share.remove(module);
    creators.sound.remove(module);
    creators.sound_share.remove(module);
    creators.status.remove(module);
}

/// After a module is removed from a table, no entry of it is left.
pub proof fn lemma_remove_forgets(s: Seq<(Seq<u8>, u64, Seq<u64>)>, module: Seq<u8>)
    requires
        distinct_modules(s),
    ensures
        forall|j: int| 0 <= j < without_module(s, module).len() ==> (#[trigger] without_module(s, module)[j]).0 != module,
{
    lemma_index_of_module(s, module, 0);
    let k = index_of_module(s, module, 0);
    let w = without_module(s, module);
    assert forall|j: int| 0 <= j < w.len() implies (#[trigger] w[j]).0 != module by {
        if k < s.len() {
            let j2 = if j < k { j } else { j + 1 };
            assert(w[j] == s[j2]);
        }
    }
}

/// Loading a module that had no creator in a table and then unloading it
/// gives the table back as it was.
pub proof fn lemma_set_then_remove(
    s: Seq<(Seq<u8>, u64, Seq<u64>)>,
    module: Seq<u8>,
    original: u64,
    hashes: Seq<u64>,
)
    requires
        distinct_modules(s),
        index_of_module(s, module, 0) == s.len(),
    ensures
        without_module(with_creator(s, module, original, hashes), module) == s,
{
    let t = s.push((module, original, hashes));
    assert(with_creator(s, module, original, hashes) == t);
    lemma_index_of_module(s, module, 0);
    lemma_index_of_module(t, module, 0);
    let k = index_of_module(t, module, 0);
    assert(t[s.len() as int].0 == module);
    if k < s.len() {
        assert(t[k as int] == s[k as int]);
        assert(s[k as int].0 != module);
    }
    assert(k == s.len());
    assert(t.remove(k as int) =~= s);
}

/// For every kind of creator: after `set_fighter_funcs` records the creators
/// of a module that had none, `remove_fighter_funcs` of that module gives the
/// table back as it was before loading.
pub proof fn lemma_load_then_unload(
    before: Seq<(Seq<u8>, u64, Seq<u64>)>,
    module: Seq<u8>,
    found: Seq<FoundCreator>,
    k: CreatorKind,
)
    requires
        distinct_modules(before),
        index_of_module(before, module, 0) == before.len(),
    ensures
        without_module(table_after_set(before, module, found, k), module) == before,
{
    if exists|i: int| 0 <= i < found.len() && found[i].kind == k && found[i].original != 0 {
        let i = choose|i: int| 0 <= i < found.len() && found[i].kind == k && found[i].original != 0;
        lemma_set_then_remove(before, module, found[i].original, found[i].hashes@);
    } else {
        lemma_index_of_module(before, module, 0);
    }
}

/// After a creator is recorded for a module, the table holds exactly one
/// entry for that module, and it is the one just recorded.
pub proof fn lemma_set_then_lookup(
    s: Seq<(Seq<u8>, u64, Seq<u64>)>,
    module: Seq<u8>,
    original: u64,
    hashes: Seq<u64>,
)
    requires
        distinct_modules(s),
    ensures
        ({
            let t = with_creator(s, module, original, hashes);
            let k = index_of_module(t, module, 0);
            k < t.len() && t[k as int] == (module, original, hashes)
        }),
{
    lemma_index_of_module(s, module, 0);
    let t = with_creator(s, module, original, hashes);
    lemma_index_of_module(t, module, 0);
    let k = index_of_module(s, module, 0);
    let k2 = index_of_module(t, module, 0);
    if k < s.len() {
        assert(t[k as int].0 == module);
        if k2 < k {
            assert(t[k2 as int] == s[k2 as int]);
        }
    } else {
        assert(t[s.len() as int].0 == module);
        if k2 < s.len() {
            assert(t[k2 as int] == s[k2 as int]);
        }
    }
}

/// The replacement scripts an agent receives from `table`: those of the
/// agent itself, or, when it has none, those registered for `common`.
pub open spec fn moves_for(
    table: Map<u64, Vec<crate::scripts::ScriptInfo>>,
    hash: u64,
    common_hash: u64,
) -> Option<Vec<crate::scripts::ScriptInfo>> {
    if table.contains_key(hash) {
        Some(table[hash])
    } else if table.contains_key(common_hash) {
        Some(table[common_hash])
    } else {
        None
    }
}

/// A script replacement registered for an agent is installed on every agent
/// of that Hash40 that is created afterwards: the agent receives its own list,
/// which holds a replacement of that script (the first one registered).
pub proof fn lemma_registered_script_is_installed(
    before: Map<u64, Vec<crate::scripts::ScriptInfo>>,
    after: Map<u64, Vec<crate::scripts::ScriptInfo>>,
    agent: u64,
    info: crate::scripts::ScriptInfo,
    common_hash: u64,
)
    requires
        after.contains_key(agent),
        after[agent]@ == crate::scripts::with_script(crate::scripts::scripts_of(before, agent), info),
    ensures
        moves_for(after, agent, common_hash) == Some(after[agent]),
        crate::scripts::has_name(after[agent]@, info.name),
{
    crate::scripts::lemma_with_script_idempotent(crate::scripts::scripts_of(before, agent), info);
}

/// An agent with no replacements of its own receives those registered for
/// `common`.
pub proof fn lemma_common_fallback(
    table: Map<u64, Vec<crate::scripts::ScriptInfo>>,
    hash: u64,
    common_hash: u64,
)
    requires
        !table.contains_key(hash),
    ensures
        moves_for(table, hash, common_hash) == if table.contains_key(common_hash) {
            Some(table[common_hash])
        } else {
            None
        },
{
}

/// Replacements registered for other agents never reach an agent: two tables
/// that agree on the agent's entry and on the `common` entry give it the same
/// replacements, whatever else they hold.
pub proof fn lemma_other_agents_do_not_reach(
    t1: Map<u64, Vec<crate::scripts::ScriptInfo>>,
    t2: Map<u64, Vec<crate::scripts::ScriptInfo>>,
    hash: u64,
    common_hash: u64,
)
    requires
        t1.contains_key(hash) == t2.contains_key(hash),
        t1.contains_key(hash) ==> t1[hash] == t2[hash],
        t1.contains_key(common_hash) == t2.contains_key(common_hash),
        t1.contains_key(common_hash) ==> t1[common_hash] == t2[common_hash],
    ensures
        moves_for(t1, hash, common_hash) == moves_for(t2, hash, common_hash),
{
}

/// The replacements of a planned agent are those `table` gives it (its own,
/// else those of `common`).
pub open spec fn plan_moves_from(
    r: Option<(u64, Option<&Vec<crate::scripts::ScriptInfo>>)>,
    table: Map<u64, Vec<crate::scripts::ScriptInfo>>,
    hash: u64,
    common_hash: u64,
) -> bool {
    match r {
        None => true,
        Some((_, Some(m))) => moves_for(table, hash, common_hash) == Some(*m),
        Some((_, None)) => moves_for(table, hash, common_hash) is None,
    }
}

/// How an ACMD agent with Hash40 `hash` is created: the original creator
/// function of the first module (in load order) whose creator of kind `kind`
/// makes that agent, and the replacement scripts to install on the created
/// agent (the agent's own, else those registered for `common_hash`, the
/// Hash40 of `"common"`); `None` when no module makes the agent.
pub fn plan_animcmd_agent<'a>(
    creators: &Creators,
    kind: CreatorKind,
    reg: &'a crate::scripts::Registry,
    hash: u64,
    common_hash: u64,
) -> (r: Option<(u64, Option<&'a Vec<crate::scripts::ScriptInfo>>)>)
    requires
        kind != CreatorKind::Status,
    ensures
        ({
            let t = creators.table(kind)@;
            let i = index_of_hash(t, hash, 0);
            let cat = kind_category(kind).unwrap();
            match r {
                None => i == t.len(),
                Some((original, moves)) => i < t.len() && original == t[i as int].1 && (match moves {
                    Some(m) => moves_for(reg.table(cat).map@, hash, common_hash) == Some(*m),
                    None => moves_for(reg.table(cat).map@, hash, common_hash) is None,
                }),
            }
        }),
        (kind == CreatorKind::Effect || kind == CreatorKind::EffectShare) ==> plan_moves_from(
            r,
            reg.effect.map@,
            hash,
            common_hash,
        ),
        (kind == CreatorKind::Expression || kind == CreatorKind::ExpressionShare)
            ==> plan_moves_from(r, reg.expression.map@, hash, common_hash),
        (kind == CreatorKind::Game || kind == CreatorKind::GameShare) ==> plan_moves_from(
            r,
            reg.game.map@,
            hash,
            common_hash,
        ),
        (kind == CreatorKind::Sound || kind == CreatorKind::SoundShare) ==> plan_moves_from(
            r,
            reg.sound.map@,
            hash,
            common_hash,
        ),
{
    proof {
        lemma_kind_categories();
    }
    let table = creators.get_table(kind);
    let found = table.find_creator(hash);
    match found {
        None => None,
        Some(i) => {
            let original = table.entries[i].info.original;
            let cat = kind.category().unwrap();
            let moves = match cat {
                crate::scripts::ScriptCategory::EFFECT => &reg.effect,
                crate::scripts::ScriptCategory::EXPRESSION => &reg.expression,
                crate::scripts::ScriptCategory::GAME => &reg.game,
                crate::scripts::ScriptCategory::SOUND => &reg.sound,
            };
            let m = match moves.get(hash) {
                Some(v) => Some(v),
                None => moves.get(common_hash),
            };
            Some((original, m))
        },
    }
}

/// What is known of a status agent: the Hash40 of its fighter and the
/// addresses of its original status-setting function and destructors.
#[derive(Clone, Copy, Debug, PartialEq, Eq, Structural)]
pub struct StatusAgentInfo {
    pub hash: u64,
    pub set_status_func: u64,
    pub status_dtor: u64,
    pub status_del_dtor: u64,
}

/// The live status agents, by agent address, in the order they were created.
pub struct StatusAgents {
    pub entries: Vec<(u64, StatusAgentInfo)>,
}

/// No agent address occurs twice.
pub open spec fn distinct_agents(s: Seq<(u64, StatusAgentInfo)>) -> bool {
    forall|i: int, j: int| 0 <= i < j < s.len() ==> s[i].0 != s[j].0
}

/// The agents as a map from address to info.
pub open spec fn agents_map(s: Seq<(u64, StatusAgentInfo)>) -> Map<u64, StatusAgentInfo> {
    Map::new(
        |a: u64| exists|i: int| 0 <= i < s.len() && s[i].0 == a,
        |a: u64| s[choose|i: int| 0 <= i < s.len() && s[i].0 == a].1,
    )
}

/// Index of the first entry at or after `i` whose fighter hash is `hash`.
pub open spec fn index_of_agent_hash(s: Seq<(u64, StatusAgentInfo)>, hash: u64, i: nat) -> nat
    decreases s.len() - i,
{
    if i >= s.len() || s[i as int].1.hash == hash {
        i
    } else {
        index_of_agent_hash(s, hash, i + 1)
    }
}

proof fn lemma_index_of_agent_hash(s: Seq<(u64, StatusAgentInfo)>, hash: u64, i: nat)
    ensures
        i <= index_of_agent_hash(s, hash, i) <= s.len() || (i > s.len() && index_of_agent_hash(s, hash, i) == i),
        forall|j: int| i <= j < index_of_agent_hash(s, hash, i) && j < s.len() ==> s[j].1.hash != hash,
        index_of_agent_hash(s, hash, i) < s.len() ==> s[index_of_agent_hash(s, hash, i) as int].1.hash == hash,
    decreases s.len() - i,
{
    if !(i >= s.len() || s[i as int].1.hash == hash) {
        lemma_index_of_agent_hash(s, hash, i + 1);
    }
}

proof fn lemma_agents_map_at(s: Seq<(u64, StatusAgentInfo)>, i: int)
    requires
        distinct_agents(s),
        0 <= i < s.len(),
    ensures
        agents_map(s).contains_key(s[i].0),
        agents_map(s)[s[i].0] == s[i].1,
{
    let a = s[i].0;
    assert(exists|j: int| 0 <= j < s.len() && s[j].0 == a);
    let j = choose|j: int| 0 <= j < s.len() && s[j].0 == a;
    assert(j == i);
}

impl StatusAgents {
    pub open spec fn view(&self) -> Map<u64, StatusAgentInfo> {
        agents_map(self.entries@)
    }

    pub open spec fn wf(&self) -> bool {
        distinct_agents(self.entries@)
    }

    pub fn new() -> (a: Self)
        ensures
            a.wf(),
            a@ == Map::<u64, StatusAgentInfo>::empty(),
    {
        let a = StatusAgents { entries: Vec::new() };
        assert(a@ =~= Map::<u64, StatusAgentInfo>::empty());
        a
    }

    fn find(&self, agent: u64) -> (r: Option<usize>)
        requires
            self.wf(),
        ensures
            r matches Some(i) ==> i < self.entries@.len() && self.entries@[i as int].0 == agent,
            r is None ==> !self@.contains_key(agent),
    {
        let mut i: usize = 0;
        while i < self.entries.len()
            invariant
                i <= self.entries@.len(),
                forall|j: int| 0 <= j < i ==> self.entries@[j].0 != agent,
            decreases self.entries@.len() - i,
        {
            if self.entries[i].0 == agent {
                return Some(i);
            }
            i = i + 1;
        }
        None
    }

    /// The info of the agent at `agent`.
    pub fn get(&self, agent: u64) -> (r: Option<StatusAgentInfo>)
        requires
            self.wf(),
        ensures
            r == if self@.contains_key(agent) {
                Some(self@[agent])
            } else {
                None
            },
    {
        match self.find(agent) {
            Some(i) => {
                proof {
                    lemma_agents_map_at(self.entries@, i as int);
                }
                Some(self.entries[i].1)
            },
            None => None,
        }
    }

    /// Records `info` for the agent at `agent`, replacing what was known of it.
    pub fn insert(&mut self, agent: u64, info: StatusAgentInfo)
        requires
            old(self).wf(),
        ensures
            final(self).wf(),
            final(self)@ == old(self)@.insert(agent, info),
    {
        let ghost v = self.entries@;
        match self.find(agent) {
            Some(i) => {
                self.entries.set(i, (agent, info));
            },
            None => {
                self.entries.push((agent, info));
            },
        }
        let ghost w = self.entries@;
        proof {
            assert forall|i: int, j: int| 0 <= i < j < w.len() implies w[i].0 != w[j].0 by {
                if j == v.len() {
                    assert(w[i] == v[i]);
                    assert(agents_map(v).contains_key(v[i].0)) by {
                        lemma_agents_map_at(v, i);
                    }
                }
            }
            assert forall|a: u64| #[trigger] agents_map(w).contains_key(a) == agents_map(
                v,
            ).insert(agent, info).contains_key(a) by {
                if a != agent {
                    if agents_map(v).contains_key(a) {
                        let k = choose|k: int| 0 <= k < v.len() && v[k].0 == a;
                        assert(w[k].0 == a);
                    }
                    if agents_map(w).contains_key(a) {
                        let k = choose|k: int| 0 <= k < w.len() && w[k].0 == a;
                        assert(v[k].0 == a);
                    }
                } else {
                    let k = if w.len() > v.len() { v.len() as int } else { choose|k: int| 0 <= k < v.len() && v[k].0 == agent };
                    assert(w[k].0 == agent);
                }
            }
            assert forall|a: u64| #[trigger] agents_map(w).contains_key(a) implies agents_map(w)[a]
                == agents_map(v).insert(agent, info)[a] by {
                let k = choose|k: int| 0 <= k < w.len() && w[k].0 == a;
                lemma_agents_map_at(w, k);
                if a != agent {
                    assert(v[k] == w[k]);
                    lemma_agents_map_at(v, k);
                }
            }
            assert(agents_map(w) =~= agents_map(v).insert(agent, info));
        }
    }

    /// Removes the agent at `agent` and returns what was known of it.
    pub fn take(&mut self, agent: u64) -> (info: StatusAgentInfo)
        requires
            old(self).wf(),
            old(self)@.contains_key(agent),
        ensures
            final(self).wf(),
            info == old(self)@[agent],
            final(self)@ == old(self)@.remove(agent),
    {
        let ghost v = self.entries@;
        let i = self.find(agent).unwrap();
        proof {
            lemma_agents_map_at(v, i as int);
        }
        let (_, info) = self.entries.remove(i);
        let ghost w = self.entries@;
        proof {
            assert forall|p: int, q: int| 0 <= p < q < w.len() implies w[p].0 != w[q].0 by {
                let p2 = if p < i { p } else { p + 1 };
                let q2 = if q < i { q } else { q + 1 };
                assert(w[p] == v[p2] && w[q] == v[q2]);
            }
            assert forall|a: u64| #[trigger] agents_map(w).contains_key(a) == agents_map(v).remove(
                agent,
            ).contains_key(a) by {
                if agents_map(w).contains_key(a) {
                    let k = choose|k: int| 0 <= k < w.len() && w[k].0 == a;
                    let k2 = if k < i { k } else { k + 1 };
                    assert(v[k2].0 == a);
                    assert(a != agent);
                }
                if a != agent && agents_map(v).contains_key(a) {
                    let k = choose|k: int| 0 <= k < v.len() && v[k].0 == a;
                    assert(k != i);
                    let k2 = if k < i { k } else { k - 1 };
                    assert(w[k2].0 == a);
                }
            }
            assert forall|a: u64| #[trigger] agents_map(w).contains_key(a) implies agents_map(w)[a]
                == agents_map(v).remove(agent)[a] by {
                let k = choose|k: int| 0 <= k < w.len() && w[k].0 == a;
                lemma_agents_map_at(w, k);
                let k2 = if k < i { k } else { k + 1 };
                assert(v[k2] == w[k]);
                lemma_agents_map_at(v, k2);
            }
            assert(agents_map(w) =~= agents_map(v).remove(agent));
        }
        info
    }

    /// The info of the first recorded agent (in creation order) of the
    /// fighter `hash`, whose status functions are then already hooked.
    pub fn find_by_hash(&self, hash: u64) -> (r: Option<StatusAgentInfo>)
        ensures
            ({
                let i = index_of_agent_hash(self.entries@, hash, 0);
                r == if i < self.entries@.len() {
                    Some(self.entries@[i as int].1)
                } else {
                    None
                }
            }),
            r matches Some(info) ==> info.hash == hash,
    {
        let ghost v = self.entries@;
        proof {
            lemma_index_of_agent_hash(v, hash, 0);
        }
        let mut i: usize = 0;
        while i < self.entries.len()
            invariant
                v == self.entries@,
                i <= v.len(),
                index_of_agent_hash(v, hash, 0) == index_of_agent_hash(v, hash, i as nat),
            decreases v.len() - i,
        {
            if self.entries[i].1.hash == hash {
                return Some(self.entries[i].1);
            }
            i = i + 1;
        }
        None
    }
}

/// What creating a status agent requires.
#[derive(Clone, Copy, Debug, PartialEq, Eq, Structural)]
pub enum StatusSetup {
    /// Agents of this fighter are already hooked: the new agent was recorded
    /// with the same info.
    Reused,
    /// The agent's vtable must be hooked; record its original functions afterwards.
    NeedsHook,
}

/// Prepares the status agent just created at `agent` for fighter `hash`:
/// when an agent of the same fighter is already recorded, its info is
/// recorded for the new agent too (the vtable, shared by the fighter's
/// agents, is already hooked); otherwise the caller hooks the vtable.
pub fn setup_status_agent(agents: &mut StatusAgents, agent: u64, hash: u64) -> (r: StatusSetup)
    requires
        old(agents).wf(),
    ensures
        final(agents).wf(),
        ({
            let i = index_of_agent_hash(old(agents).entries@, hash, 0);
            if i < old(agents).entries@.len() {
                &&& r == StatusSetup::Reused
                &&& final(agents)@ == old(agents)@.insert(agent, old(agents).entries@[i as int].1)
            } else {
                &&& r == StatusSetup::NeedsHook
                &&& final(agents)@ == old(agents)@
            }
        }),
{
    match agents.find_by_hash(hash) {
        Some(info) => {
            agents.insert(agent, info);
            StatusSetup::Reused
        },
        None => StatusSetup::NeedsHook,
    }
}

/// The status replacements to install on an agent of fighter `hash`: those
/// registered for `common_hash` (the Hash40 of `"common"`) when the agent is
/// a fighter, then those of the fighter itself.
pub fn status_scripts_plan<'a>(
    table: &'a crate::scripts::StatusTable,
    hash: u64,
    common_hash: u64,
    is_fighter: bool,
) -> (r: (Option<&'a Vec<crate::scripts::StatusInfo>>, Option<&'a Vec<crate::scripts::StatusInfo>>))
    ensures
        r.0 matches Some(v) ==> is_fighter && table.map@.contains_key(common_hash) && *v
            == table.map@[common_hash],
        r.0 is None ==> !is_fighter || !table.map@.contains_key(common_hash),
        r.1 matches Some(v) ==> table.map@.contains_key(hash) && *v == table.map@[hash],
        r.1 is None ==> !table.map@.contains_key(hash),
{
    let common = if is_fighter {
        table.get(common_hash)
    } else {
        None
    };
    (common, table.get(hash))
}

/// How to hook one agent creator: the index of its symbol, the address of
/// the original function, and the value to store in the symbol (the offset of
/// the replacement from the module base, modulo 2^64, so that the base plus
/// it gives the replacement's address).
#[derive(Clone, Copy, Debug, PartialEq, Eq, Structural)]
pub struct FuncPatch {
    pub symbol: u32,
    pub original: u64,
    pub new_value: u64,
}

/// The bytes of the symbol name of the creator of kind `kind` in `module`.
pub open spec fn creator_symbol(module: Seq<char>, kind: CreatorKind) -> Seq<u8> {
    encode_utf8(sym_text(module, kind_text(kind)))
}

/// Plans hooking the creator of kind `kind` in the fighter module `module`,
/// loaded at `base`, with the replacement at `func_addr`: looks the
/// creator's symbol up; `None` when the module has none.
pub fn set_fighter_func(
    table: &crate::rtld::SymbolTable,
    module: &str,
    base: u64,
    kind: CreatorKind,
    func_addr: u64,
) -> (r: Option<FuncPatch>)
    requires
        0 < table.buckets@.len() <= u32::MAX,
        table.chain_is_finite(creator_symbol(module@, kind)),
        table.spec_lookup(creator_symbol(module@, kind)) matches Some(j) ==> base + table.symbols@[j as int].value <= u64::MAX,
    ensures
        r == match table.spec_lookup(creator_symbol(module@, kind)) {
            None => None,
            Some(j) => Some(
                FuncPatch {
                    symbol: j,
                    original: (base + table.symbols@[j as int].value) as u64,
                    new_value: func_addr.wrapping_sub(base),
                },
            ),
        },
{
    let sym = make_sym(module, kind.symbol_kind());
    let name = sym.as_str();
    proof {
        assert(name.spec_bytes() == creator_symbol(module@, kind));
    }
    match crate::rtld::get_symbol_by_name(table, name) {
        None => None,
        Some(j) => {
            let original = base + table.symbols[j as usize].value;
            let new_value = func_addr.wrapping_sub(base);
            Some(FuncPatch { symbol: j, original, new_value })
        },
    }
}

/// Address of word `pos` of a text region starting at `start`.
pub open spec fn word_addr(start: usize, pos: int) -> int {
    start + 4 * pos
}

/// The text search's state machine, from word `pos` with `matching` words of
/// `needle` matched so far and the match start `begin` (0 when none): a word
/// equal to the next needle word extends the match (recording its start when
/// it is the first), any other word resets it; the search ends at the end of
/// the text or once the whole needle is matched, and yields `begin`.
pub open spec fn scan(
    text: Seq<u32>,
    needle: Seq<u32>,
    start: usize,
    pos: nat,
    matching: nat,
    begin: int,
) -> int
    decreases text.len() - pos,
{
    if pos >= text.len() || matching >= needle.len() {
        begin
    } else if text[pos as int] == needle[matching as int] {
        scan(
            text,
            needle,
            start,
            pos + 1,
            matching + 1,
            if matching == 0 {
                word_addr(start, pos as int)
            } else {
                begin
            },
        )
    } else {
        scan(text, needle, start, pos + 1, 0, 0)
    }
}

/// Searches the text region `text`, which starts at address `text_start`,
/// for `needle`, and returns the address where the match begins (`None` when
/// that address would be 0). A mismatch restarts matching at the next word
/// without re-testing the current one, and a match still partial when the
/// text ends is returned too.
pub fn byte_search(text: &[u32], text_start: usize, needle: &[u32]) -> (r: Option<usize>)
    requires
        text_start + 4 * text@.len() <= usize::MAX,
    ensures
        r == if scan(text@, needle@, text_start, 0, 0, 0) == 0 {
            None::<usize>
        } else {
            Some(scan(text@, needle@, text_start, 0, 0, 0) as usize)
        },
        r matches Some(a) ==> exists|p: int, m: int|
            #![trigger text@.subrange(p, p + m)]
            0 <= p && 0 < m <= needle@.len() && p + m <= text@.len() && (m == needle@.len() || p + m
                == text@.len()) && a == word_addr(text_start, p) && text@.subrange(p, p + m)
                == needle@.subrange(0, m),
        r matches Some(a) ==> forall|p: int|
            0 <= p && a == word_addr(text_start, p) && p + needle@.len() <= text@.len()
                ==> #[trigger] text@.subrange(p, p + needle@.len()) == needle@,
{
    let mut matching: usize = 0;
    let mut pos: usize = 0;
    let mut match_begin: usize = 0;
    while pos < text.len() && matching < needle.len()
        invariant
            pos <= text@.len(),
            matching <= pos,
            matching <= needle@.len(),
            text_start + 4 * text@.len() <= usize::MAX,
            scan(text@, needle@, text_start, pos as nat, matching as nat, match_begin as int)
                == scan(text@, needle@, text_start, 0, 0, 0),
            matching == 0 ==> match_begin == 0,
            matching > 0 ==> match_begin == word_addr(text_start, pos - matching),
            text@.subrange(pos - matching, pos as int) == needle@.subrange(0, matching as int),
        decreases text@.len() - pos,
    {
        if text[pos] == needle[matching] {
            if matching == 0 {
                match_begin = text_start + 4 * pos;
            }
            proof {
                assert(text@.subrange(pos - matching, pos + 1) =~= needle@.subrange(
                    0,
                    matching + 1,
                )) by {
                    assert(text@.subrange(pos - matching, pos as int) =~= needle@.subrange(
                        0,
                        matching as int,
                    ));
                }
            }
            matching = matching + 1;
        } else {
            matching = 0;
            match_begin = 0;
            assert(text@.subrange(pos + 1, pos + 1) =~= needle@.subrange(0, 0));
        }
        pos = pos + 1;
    }
    if match_begin == 0 {
        None
    } else {
        proof {
            let p = pos - matching;
            let m = matching as int;
            assert(text@.subrange(p, p + m) == needle@.subrange(0, m));
            if p + needle@.len() <= text@.len() {
                assert(m == needle@.len());
                assert(needle@.subrange(0, m) =~= needle@);
            }
        }
        Some(match_begin)
    }
}

} // verus!
