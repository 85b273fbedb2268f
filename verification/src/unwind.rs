use vstd::prelude::*;

verus! {

/// The address range of a loaded plugin module.
#[derive(PartialEq, Eq, Structural, Clone, Copy, Debug)]
pub struct Nro {
    pub start: u64,
    pub end: u64,
}

impl Nro {
    /// Whether `addr` lies strictly between the two bounds.
    pub open spec fn spec_contains(self, addr: u64) -> bool {
        self.start < addr && addr < self.end
    }

    pub fn new(start_adr: u64, end_adr: u64) -> (nro: Self)
        ensures
            nro.start == start_adr,
            nro.end == end_adr,
    {
        Nro { start: start_adr, end: end_adr }
    }

    /// Both bounds are exclusive: neither `start` nor `end` is contained.
    pub fn contains(&self, addr: u64) -> (r: bool)
        ensures
            r == self.spec_contains(addr),
    {
        self.start < addr && addr < self.end
    }
}

/// Whether some plugin's range contains `ip`.
pub open spec fn in_some_plugin(nros: Seq<Nro>, ip: u64) -> bool {
    exists|k: int| 0 <= k < nros.len() && (#[trigger] nros[k]).spec_contains(ip)
}

/// Whether `ip` lies inside one of the registered plugins.
pub fn ip_is_in_module(nros: &[Nro], ip: u64) -> (ret: bool)
    ensures
        ret == in_some_plugin(nros@, ip),
{
    let mut ret = false;
    let mut k: usize = 0;
    while k < nros.len()
        invariant
            k <= nros@.len(),
            !ret,
            forall|j: int| 0 <= j < k ==> !(#[trigger] nros@[j]).spec_contains(ip),
        decreases nros@.len() - k,
    {
        ret = nros[k].contains(ip);
        if ret {
            return ret;
        }
        k = k + 1;
    }
    ret
}

/// Index of the first of the first `distance` words of `words` that equals
/// `want`; `None` when none does.
pub fn byte_search(words: &[u32], want: u32, distance: usize) -> (r: Option<usize>)
    requires
        distance <= words@.len(),
    ensures
        r matches Some(x) ==> x < distance && words@[x as int] == want && forall|y: int|
            0 <= y < x ==> words@[y] != want,
        r is None ==> forall|y: int| 0 <= y < distance ==> words@[y] != want,
{
    let mut x: usize = 0;
    while x < distance
        invariant
            x <= distance <= words@.len(),
            forall|y: int| 0 <= y < x ==> words@[y] != want,
        decreases distance - x,
    {
        if words[x] == want {
            return Some(x);
        }
        x = x + 1;
    }
    None
}

/// Unwinder step results.
pub const UNW_STEP_END: u64 = 0;
pub const UNW_STEP_SUCCESS: u64 = 1;

/// Personality routine action bit: the search phase.
pub const UA_SEARCH_PHASE: u64 = 1;

/// Personality routine results.
pub const URC_FATAL_PHASE2_ERROR: u64 = 2;
pub const URC_FATAL_PHASE1_ERROR: u64 = 3;
pub const URC_HANDLER_FOUND: u64 = 6;
pub const URC_INSTALL_CONTEXT: u64 = 7;

/// What the personality routine does for an exception raised in a plugin.
#[derive(PartialEq, Eq, Structural, Clone, Copy, Debug)]
pub enum Personality {
    /// Search phase: claim a handler.
    HandlerFound,
    /// Cleanup phase, but the instruction pointer is outside every plugin.
    IpOutsidePlugins,
    /// Cleanup phase, but the landing pad is outside every plugin.
    LandingPadOutsidePlugins,
    /// Cleanup phase: set the instruction pointer to the landing pad and resume there.
    InstallContext { landing_pad: u64 },
}

impl Personality {
    pub open spec fn spec_code(self) -> u64 {
        match self {
            Personality::HandlerFound => URC_HANDLER_FOUND,
            Personality::IpOutsidePlugins => URC_FATAL_PHASE2_ERROR,
            Personality::LandingPadOutsidePlugins => URC_FATAL_PHASE2_ERROR,
            Personality::InstallContext { .. } => URC_INSTALL_CONTEXT,
        }
    }

    /// The result code the routine returns to the unwinder.
    pub fn code(&self) -> (c: u64)
        ensures
            c == self.spec_code(),
    {
        match self {
            Personality::HandlerFound => URC_HANDLER_FOUND,
            Personality::IpOutsidePlugins => URC_FATAL_PHASE2_ERROR,
            Personality::LandingPadOutsidePlugins => URC_FATAL_PHASE2_ERROR,
            Personality::InstallContext { .. } => URC_INSTALL_CONTEXT,
        }
    }
}

/// The personality routine's decision. In the search phase it always claims a
/// handler. Otherwise the exception must have been raised inside a plugin,
/// and the landing pad (four bytes past the address stored in the unwind
/// info, `pad_word`) must lie inside a plugin too. The routine's `version`
/// only decides whether a warning is printed; it never changes the result.
pub fn decide_personality(actions: u64, ip: u64, pad_word: u64, nros: &[Nro]) -> (p: Personality)
    requires
        actions & UA_SEARCH_PHASE == 0 && in_some_plugin(nros@, ip) ==> pad_word + 4 <= u64::MAX,
    ensures
        actions & UA_SEARCH_PHASE != 0 ==> p == Personality::HandlerFound,
        actions & UA_SEARCH_PHASE == 0 && !in_some_plugin(nros@, ip) ==> p
            == Personality::IpOutsidePlugins,
        actions & UA_SEARCH_PHASE == 0 && in_some_plugin(nros@, ip) ==> p == (if in_some_plugin(
            nros@,
            (pad_word + 4) as u64,
        ) {
            Personality::InstallContext { landing_pad: (pad_word + 4) as u64 }
        } else {
            Personality::LandingPadOutsidePlugins
        }),
{
    if actions & UA_SEARCH_PHASE != 0 {
        Personality::HandlerFound
    } else if !ip_is_in_module(nros, ip) {
        Personality::IpOutsidePlugins
    } else {
        let landing_pad = pad_word + 4;
        if !ip_is_in_module(nros, landing_pad) {
            Personality::LandingPadOutsidePlugins
        } else {
            Personality::InstallContext { landing_pad }
        }
    }
}

/// Whether the routine was called with an unexpected version (it then warns).
pub fn personality_wrong_context(version: i32) -> (w: bool)
    ensures
        w == (version != 1),
{
    version != 1
}

/// What the replacement unwinder step has learnt so far.
#[derive(PartialEq, Eq, Structural, Clone, Copy, Debug)]
pub enum StepEvent {
    /// The step was entered; `at_bottom` tells whether the cursor is at the bottom of the stack.
    Entered { at_bottom: bool },
    /// The DWARF step returned `result`.
    Stepped { result: u64 },
    /// After a successful step the instruction pointer is `ip`.
    IpRead { ip: u64 },
    /// The unwind info was recomputed from the instruction pointer.
    InfoReset { at_bottom: bool },
}

/// What the replacement unwinder step does next.
#[derive(PartialEq, Eq, Structural, Clone, Copy, Debug)]
pub enum StepAction {
    /// Return this result to the caller.
    Return { result: u64 },
    /// Run the DWARF step.
    StepWithDwarf,
    /// Read the instruction pointer.
    ReadIp,
    /// The frame is in a plugin: point the unwind info at the plugin's
    /// landing-pad marker and custom personality, then return success.
    PatchUnwindInfo { ip: u64 },
    /// The frame is elsewhere: recompute the unwind info from the instruction pointer.
    ResetInfo,
}

/// The decisions of the replacement unwinder step, one event at a time: at
/// the bottom of the stack it ends; a failed DWARF step is passed on; after a
/// successful step, a frame inside a plugin gets the plugin's unwind info and
/// any other frame has its info recomputed, after which the step ends if that
/// reached the bottom of the stack and succeeds otherwise.
pub fn decide_step(event: StepEvent, nros: &[Nro]) -> (a: StepAction)
    ensures
        a == (match event {
            StepEvent::Entered { at_bottom } => if at_bottom {
                StepAction::Return { result: UNW_STEP_END }
            } else {
                StepAction::StepWithDwarf
            },
            StepEvent::Stepped { result } => if result == UNW_STEP_SUCCESS {
                StepAction::ReadIp
            } else {
                StepAction::Return { result }
            },
            StepEvent::IpRead { ip } => if in_some_plugin(nros@, ip) {
                StepAction::PatchUnwindInfo { ip }
            } else {
                StepAction::ResetInfo
            },
            StepEvent::InfoReset { at_bottom } => if at_bottom {
                StepAction::Return { result: UNW_STEP_END }
            } else {
                StepAction::Return { result: UNW_STEP_SUCCESS }
            },
        }),
{
    match event {
        StepEvent::Entered { at_bottom } => {
            if at_bottom {
                StepAction::Return { result: UNW_STEP_END }
            } else {
                StepAction::StepWithDwarf
            }
        },
        StepEvent::Stepped { result } => {
            if result == UNW_STEP_SUCCESS {
                StepAction::ReadIp
            } else {
                StepAction::Return { result }
            }
        },
        StepEvent::IpRead { ip } => {
            if ip_is_in_module(nros, ip) {
                StepAction::PatchUnwindInfo { ip }
            } else {
                StepAction::ResetInfo
            }
        },
        StepEvent::InfoReset { at_bottom } => {
            if at_bottom {
                StepAction::Return { result: UNW_STEP_END }
            } else {
                StepAction::Return { result: UNW_STEP_SUCCESS }
            }
        },
    }
}

/// The landing-pad marker word that plugins place after their code.
pub const LANDING_PAD_MAGIC: u32 = 0xB000B1E5;

/// How many words past the instruction pointer the marker is searched for.
pub const LANDING_PAD_SEARCH_WORDS: usize = 0x2000;

/// Offset of `_Unwind_Resume` in the SDK module.
pub const UNWIND_RESUME_OFFSET: usize = 0x521960;

/// Addresses in the SDK module that the unwinder hooks need.
#[derive(PartialEq, Eq, Structural, Clone, Copy, Debug)]
pub struct UnwinderAddresses {
    pub step_with_dwarf: usize,
    pub set_info_based_on_ip_register: usize,
    pub unwind_cursor_step: usize,
    pub bad_info_check: usize,
}

/// The hooked addresses, from the address at which `_Unwind_Resume` was found:
/// the SDK module's base is `_Unwind_Resume` less its offset, and each address
/// is a fixed offset from that base.
pub fn unwinder_addresses(unwind_resume: usize) -> (a: UnwinderAddresses)
    requires
        unwind_resume != 0,
        UNWIND_RESUME_OFFSET <= unwind_resume,
        unwind_resume - UNWIND_RESUME_OFFSET + 0x51ef30 <= usize::MAX,
    ensures
        a.step_with_dwarf == unwind_resume - UNWIND_RESUME_OFFSET + 0x51ef30,
        a.set_info_based_on_ip_register == unwind_resume - UNWIND_RESUME_OFFSET + 0x51ed50,
        a.unwind_cursor_step == unwind_resume - UNWIND_RESUME_OFFSET + 0x51ec68,
        a.bad_info_check == unwind_resume - UNWIND_RESUME_OFFSET + 0x51e5dc,
{
    let nnsdk = unwind_resume - UNWIND_RESUME_OFFSET;
    UnwinderAddresses {
        step_with_dwarf: nnsdk + 0x51ef30,
        set_info_based_on_ip_register: nnsdk + 0x51ed50,
        unwind_cursor_step: nnsdk + 0x51ec68,
        bad_info_check: nnsdk + 0x51e5dc,
    }
}

/// The set of plugins that registered replacements, each at most once.
pub struct Plugins {
    pub nros: Vec<Nro>,
}

/// No plugin range occurs twice.
pub open spec fn no_duplicates(s: Seq<Nro>) -> bool {
    forall|i: int, j: int| 0 <= i < j < s.len() ==> s[i] != s[j]
}

/// The outcome of registering the plugin that holds a replacement.
#[derive(PartialEq, Eq, Structural, Clone, Copy, Debug)]
pub struct Registration {
    /// The plugin's range could not be found (one of its bounds is 0); it is registered anyway.
    pub missing_info: bool,
    /// The plugin was not registered before.
    pub newly_registered: bool,
}

impl Plugins {
    pub open spec fn view(&self) -> Seq<Nro> {
        self.nros@
    }

    pub open spec fn wf(&self) -> bool {
        no_duplicates(self.nros@)
    }

    pub fn new() -> (p: Self)
        ensures
            p@ == Seq::<Nro>::empty(),
            p.wf(),
    {
        Plugins { nros: Vec::new() }
    }

    /// Whether `nro` is registered.
    pub fn contains(&self, nro: &Nro) -> (r: bool)
        ensures
            r == self@.contains(*nro),
    {
        let mut k: usize = 0;
        while k < self.nros.len()
            invariant
                k <= self.nros@.len(),
                forall|j: int| 0 <= j < k ==> self.nros@[j] != *nro,
            decreases self.nros@.len() - k,
        {
            if self.nros[k] == *nro {
                return true;
            }
            k = k + 1;
        }
        false
    }

    /// Registers the plugin whose range is `start..end`, unless it already is.
    pub fn register_user(&mut self, start: u64, end: u64) -> (r: Registration)
        requires
            old(self).wf(),
        ensures
            final(self).wf(),
            r.missing_info == (start == 0 || end == 0),
            r.newly_registered == !old(self)@.contains(Nro { start, end }),
            final(self)@ == if old(self)@.contains(Nro { start, end }) {
                old(self)@
            } else {
                old(self)@.push(Nro { start, end })
            },
    {
        let nro = Nro::new(start, end);
        let missing_info = start == 0 || end == 0;
        if !self.contains(&nro) {
            self.nros.push(nro);
            proof {
                assert forall|i: int, j: int| 0 <= i < j < self.nros@.len() implies self.nros@[i]
                    != self.nros@[j] by {
                    if j == self.nros@.len() - 1 {
                        assert(old(self)@.contains(self.nros@[i]) || i == j);
                    }
                }
            }
            Registration { missing_info, newly_registered: true }
        } else {
            Registration { missing_info, newly_registered: false }
        }
    }
}

/// Registering a plugin twice leaves the set as registering it once does.
pub proof fn lemma_register_idempotent(s: Seq<Nro>, nro: Nro)
    ensures
        ({
            let once = if s.contains(nro) { s } else { s.push(nro) };
            let twice = if once.contains(nro) { once } else { once.push(nro) };
            twice == once && once.contains(nro)
        }),
{
    if !s.contains(nro) {
        assert(s.push(nro)[s.len() as int] == nro);
    }
}

} // verus!
