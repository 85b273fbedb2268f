use vstd::prelude::*;
use vstd::string::StringSliceAdditionalSpecFns;

verus! {

/// One step of the SysV ELF symbol hash: shift in a byte (modulo 2^32), fold
/// the top nibble back into bits 4..8 and clear it.
pub open spec fn elf_hash_step(h: u32, c: u8) -> u32 {
    let h1 = (h << 4u32).wrapping_add(c as u32);
    let g = h1 & 0xf000_0000u32;
    let h2 = if g != 0 { h1 ^ (g >> 24u32) } else { h1 };
    h2 & !g
}

/// The ELF hash of the C string held in `s`, continued from `h`: the bytes up
/// to the first NUL, or all of them when `s` holds none.
pub open spec fn elf_hash_from(h: u32, s: Seq<u8>) -> u32
    decreases s.len(),
{
    if s.len() == 0 || s[0] == 0 {
        h
    } else {
        elf_hash_from(elf_hash_step(h, s[0]), s.drop_first())
    }
}

pub open spec fn elf_hash(s: Seq<u8>) -> u32 {
    elf_hash_from(0, s)
}

/// The byte at `i` of a C string held in `s`; past the end of `s` it reads as
/// the terminating NUL.
pub open spec fn byte_at(s: Seq<u8>, i: int) -> u8 {
    if 0 <= i < s.len() {
        s[i]
    } else {
        0
    }
}

/// The first index at or after `i` where `s1` ends or the two strings differ.
pub open spec fn compare_stop(s1: Seq<u8>, s2: Seq<u8>, i: nat) -> nat
    decreases s1.len() - i,
{
    if i >= s1.len() || byte_at(s1, i as int) == 0 || byte_at(s1, i as int) != byte_at(s2, i as int) {
        i
    } else {
        compare_stop(s1, s2, i + 1)
    }
}

/// What the comparison returns: the difference of the bytes where it
/// stopped, taken modulo 256.
pub open spec fn compare_result(s1: Seq<u8>, s2: Seq<u8>) -> i32 {
    let k = compare_stop(s1, s2, 0) as int;
    byte_at(s1, k).wrapping_sub(byte_at(s2, k)) as i32
}

/// The two C strings are equal: they agree on every byte up to and including
/// the terminator of the first.
pub open spec fn cstr_eq(s1: Seq<u8>, s2: Seq<u8>) -> bool {
    forall|i: int|
        0 <= i && (forall|j: int| 0 <= j < i ==> byte_at(s1, j) != 0) ==> #[trigger] byte_at(s1, i)
            == byte_at(s2, i)
}

proof fn lemma_step_clears_top(h: u32, c: u8)
    ensures
        elf_hash_step(h, c) < 0x1000_0000,
{
    let h1 = (h << 4u32).wrapping_add(c as u32);
    let g = h1 & 0xf000_0000u32;
    assert(((if g != 0 { h1 ^ (g >> 24u32) } else { h1 }) & !g) < 0x1000_0000) by (bit_vector)
        requires
            g == h1 & 0xf000_0000u32,
    ;
}

/// The ELF hash of the C string held in `name`: the SysV hash of its bytes
/// before the first NUL (or of all its bytes when it holds none), with the
/// additions taken modulo 2^32.
pub fn gen_rtld_elf_hash(name: &[u8]) -> (ret: u32)
    ensures
        ret == elf_hash(name@),
        ret < 0x1000_0000,
{
    let mut ret: u32 = 0;
    let mut i: usize = 0;
    assert(name@.skip(0) =~= name@);
    while i < name.len() && name[i] != 0
        invariant
            i <= name@.len(),
            elf_hash_from(ret, name@.skip(i as int)) == elf_hash(name@),
            ret < 0x1000_0000,
        decreases name@.len() - i,
    {
        let c = name[i];
        proof {
            lemma_step_clears_top(ret, c);
            assert(name@.skip(i as int).drop_first() =~= name@.skip(i + 1));
        }
        ret = (ret << 4).wrapping_add(c as u32);
        let g: u32 = ret & 0xf000_0000;
        if g != 0 {
            ret = ret ^ (g >> 24);
        }
        ret = ret & !g;
        i = i + 1;
    }
    proof {
        assert(elf_hash_from(ret, name@.skip(i as int)) == ret);
    }
    ret
}

/// The hash takes in every byte before the first NUL, however long the
/// string: appending a non-NUL byte to a NUL-free string applies one more
/// step to its hash; the empty string hashes to 0.
pub proof fn lemma_elf_hash_push(s: Seq<u8>, c: u8)
    requires
        forall|i: int| 0 <= i < s.len() ==> s[i] != 0,
        c != 0,
    ensures
        elf_hash(s.push(c)) == elf_hash_step(elf_hash(s), c),
        elf_hash(Seq::<u8>::empty()) == 0,
{
    lemma_elf_hash_from_push(0, s, c);
}

proof fn lemma_elf_hash_from_push(h: u32, s: Seq<u8>, c: u8)
    requires
        forall|i: int| 0 <= i < s.len() ==> s[i] != 0,
        c != 0,
    ensures
        elf_hash_from(h, s.push(c)) == elf_hash_step(elf_hash_from(h, s), c),
    decreases s.len(),
{
    if s.len() == 0 {
        assert(s.push(c).drop_first() =~= Seq::<u8>::empty());
        assert(elf_hash_from(elf_hash_step(h, c), Seq::<u8>::empty()) == elf_hash_step(h, c));
        assert(elf_hash_from(h, s) == h);
    } else {
        assert(s.push(c).drop_first() =~= s.drop_first().push(c));
        assert(s.push(c)[0] == s[0]);
        lemma_elf_hash_from_push(elf_hash_step(h, s[0]), s.drop_first(), c);
    }
}

/// A NUL byte ends the string: what follows it does not change the hash.
pub proof fn lemma_elf_hash_stops_at_nul(h: u32, s: Seq<u8>, t: Seq<u8>)
    ensures
        elf_hash_from(h, s + seq![0u8] + t) == elf_hash_from(h, s + seq![0u8]),
        elf_hash_from(h, s + seq![0u8]) == elf_hash_from(h, s),
    decreases s.len(),
{
    if s.len() > 0 && s[0] != 0 {
        assert((s + seq![0u8] + t).drop_first() =~= s.drop_first() + seq![0u8] + t);
        assert((s + seq![0u8]).drop_first() =~= s.drop_first() + seq![0u8]);
        lemma_elf_hash_stops_at_nul(elf_hash_step(h, s[0]), s.drop_first(), t);
    }
}

proof fn lemma_compare_stop(s1: Seq<u8>, s2: Seq<u8>, i: nat)
    requires
        forall|j: int| 0 <= j < i ==> byte_at(s1, j) != 0 && byte_at(s1, j) == byte_at(s2, j),
    ensures
        i <= compare_stop(s1, s2, i) <= s1.len() || compare_stop(s1, s2, i) == i,
        forall|j: int|
            0 <= j < compare_stop(s1, s2, i) ==> byte_at(s1, j) != 0 && byte_at(s1, j) == byte_at(
                s2,
                j,
            ),
        byte_at(s1, compare_stop(s1, s2, i) as int) == 0 || byte_at(
            s1,
            compare_stop(s1, s2, i) as int,
        ) != byte_at(s2, compare_stop(s1, s2, i) as int),
    decreases s1.len() - i,
{
    if i >= s1.len() || byte_at(s1, i as int) == 0 || byte_at(s1, i as int) != byte_at(
        s2,
        i as int,
    ) {
    } else {
        lemma_compare_stop(s1, s2, i + 1);
    }
}

/// The C string comparison on two C strings held in `s1` and `s2` (bytes past the end of a
/// slice read as NUL): walks while the byte of `s1` is not NUL and equals the
/// byte of `s2`, then returns the difference of the two bytes modulo 256.
/// It returns 0 exactly when the two C strings are equal.
pub fn rtld_str_compare(s1: &[u8], s2: &[u8]) -> (r: i32)
    ensures
        r == compare_result(s1@, s2@),
        r == 0 <==> cstr_eq(s1@, s2@),
{
    let mut i: usize = 0;
    loop
        invariant
            i <= s1@.len(),
            compare_stop(s1@, s2@, i as nat) == compare_stop(s1@, s2@, 0),
        decreases s1@.len() - i,
    {
        let a: u8 = if i < s1.len() { s1[i] } else { 0 };
        let b: u8 = if i < s2.len() { s2[i] } else { 0 };
        if !(a != 0 && a == b) {
            proof {
                lemma_compare_stop(s1@, s2@, 0);
                let k = compare_stop(s1@, s2@, 0) as int;
                assert(k == i);
                if a.wrapping_sub(b) as i32 == 0 {
                    assert(a == b) by (bit_vector)
                        requires a.wrapping_sub(b) as i32 == 0;
                    assert(a == 0);
                    assert forall|j: int|
                        0 <= j && (forall|m: int| 0 <= m < j ==> byte_at(s1@, m) != 0) implies #[trigger] byte_at(s1@, j) == byte_at(s2@, j) by {
                        if j > k {
                            assert(byte_at(s1@, k) != 0);
                        }
                    }
                } else {
                    assert(a != b) by (bit_vector)
                        requires a.wrapping_sub(b) as i32 != 0;
                    if cstr_eq(s1@, s2@) {
                        assert(byte_at(s1@, k) == byte_at(s2@, k));
                    }
                }
            }
            return a.wrapping_sub(b) as i32;
        }
        i = i + 1;
    }
}

} // verus!

verus! {

/// An entry of the dynamic symbol table (the fields the lookup reads).
#[derive(Clone, Copy, Debug)]
pub struct ElfSymbol {
    /// Offset of the symbol's name in the string table.
    pub name: u32,
    /// Section index; 0 is undefined, `0xFFF2` is a common symbol.
    pub shndx: u16,
    pub value: u64,
}

/// The SysV hash table of a loaded module with its symbols and string table.
pub struct SymbolTable {
    pub buckets: Vec<u32>,
    pub chains: Vec<u32>,
    pub symbols: Vec<ElfSymbol>,
    pub strtab: Vec<u8>,
}

/// The string table from offset `off` on (empty when `off` is past its end).
pub open spec fn str_from(strtab: Seq<u8>, off: int) -> Seq<u8> {
    if off <= strtab.len() {
        strtab.subrange(off, strtab.len() as int)
    } else {
        Seq::empty()
    }
}

impl SymbolTable {
    /// Following the chain from index `i` reaches the terminating 0 within
    /// `fuel` steps, reading only entries that exist.
    pub open spec fn chain_ends(&self, i: u32, fuel: nat) -> bool
        decreases fuel,
    {
        i == 0 || (fuel > 0 && i < self.chains@.len() && i < self.symbols@.len()
            && self.chain_ends(self.chains@[i as int], (fuel - 1) as nat))
    }

    /// The symbol indices the chain from `i` visits, at most `fuel` of them.
    pub open spec fn chain_from(&self, i: u32, fuel: nat) -> Seq<u32>
        decreases fuel,
    {
        if i == 0 || fuel == 0 {
            Seq::empty()
        } else {
            seq![i] + self.chain_from(self.chains@[i as int], (fuel - 1) as nat)
        }
    }

    /// The first entry of the chain for `hash`.
    pub open spec fn head(&self, hash: u32) -> u32 {
        self.buckets@[(hash % (self.buckets@.len() as u32)) as int]
    }

    /// The chain for `name` is well formed: it ends after finitely many steps.
    pub open spec fn chain_is_finite(&self, name: Seq<u8>) -> bool {
        exists|fuel: nat| self.chain_ends(self.head(elf_hash(name)), fuel)
    }

    /// The symbol indices on the chain for `name`.
    pub open spec fn chain_for(&self, name: Seq<u8>) -> Seq<u32> {
        let head = self.head(elf_hash(name));
        self.chain_from(head, choose|fuel: nat| self.chain_ends(head, fuel))
    }

    /// Symbol `j` is defined here (neither undefined nor common) and its name is `name`.
    pub open spec fn matches(&self, name: Seq<u8>, j: u32) -> bool {
        let sym = self.symbols@[j as int];
        &&& sym.shndx != 0
        &&& sym.shndx != 0xFFF2
        &&& compare_result(name, str_from(self.strtab@, sym.name as int)) == 0
    }

    /// What the lookup returns: the first symbol on the chain for `name` that matches it.
    pub open spec fn spec_lookup(&self, name: Seq<u8>) -> Option<u32> {
        first_match(self, name, self.chain_for(name))
    }
}

/// The first element of `chain` whose symbol matches `name`.
pub open spec fn first_match(t: &SymbolTable, name: Seq<u8>, chain: Seq<u32>) -> Option<u32>
    decreases chain.len(),
{
    if chain.len() == 0 {
        None
    } else if t.matches(name, chain[0]) {
        Some(chain[0])
    } else {
        first_match(t, name, chain.drop_first())
    }
}

proof fn lemma_first_match(t: &SymbolTable, name: Seq<u8>, chain: Seq<u32>)
    ensures
        first_match(t, name, chain) matches Some(j) ==> chain.contains(j) && t.matches(name, j),
        first_match(t, name, chain) is None ==> forall|k: int|
            0 <= k < chain.len() ==> !t.matches(name, #[trigger] chain[k]),
    decreases chain.len(),
{
    if chain.len() > 0 {
        lemma_first_match(t, name, chain.drop_first());
        if first_match(t, name, chain) is None {
            assert forall|k: int| 0 <= k < chain.len() implies !t.matches(
                name,
                #[trigger] chain[k],
            ) by {
                if k > 0 {
                    assert(chain[k] == chain.drop_first()[k - 1]);
                }
            }
        }
        if !t.matches(name, chain[0]) {
            if let Some(j) = first_match(t, name, chain.drop_first()) {
                let k = choose|k: int| 0 <= k < chain.drop_first().len() && chain.drop_first()[k] == j;
                assert(chain[k + 1] == j);
            }
        }
    }
}

/// Looks `name` up in the module's hash table: hashes it, walks the chain of
/// its bucket and returns the index of the first symbol on it that is
/// defined (section neither 0 nor `0xFFF2`) and whose name equals `name` as a
/// C string; `None` when no symbol on the chain does.
pub fn get_symbol_by_name(table: &SymbolTable, name: &str) -> (r: Option<u32>)
    requires
        0 < table.buckets@.len() <= u32::MAX,
        table.chain_is_finite(name.spec_bytes()),
    ensures
        r == table.spec_lookup(name.spec_bytes()),
        r matches Some(j) ==> {
            &&& j < table.symbols@.len()
            &&& table.chain_for(name.spec_bytes()).contains(j)
            &&& table.matches(name.spec_bytes(), j)
            &&& cstr_eq(
                name.spec_bytes(),
                str_from(table.strtab@, table.symbols@[j as int].name as int),
            )
        },
        r is None ==> forall|k: int|
            0 <= k < table.chain_for(name.spec_bytes()).len() ==> !table.matches(
                name.spec_bytes(),
                #[trigger] table.chain_for(name.spec_bytes())[k],
            ),
{
    let bytes = name.as_bytes();
    let ghost nm = name.spec_bytes();
    let hash = gen_rtld_elf_hash(bytes);
    let nbucket = table.buckets.len() as u32;
    let mut i = table.buckets[(hash % nbucket) as usize];
    let ghost head = i;
    let ghost full_fuel = choose|fuel: nat| table.chain_ends(head, fuel);
    let ghost mut fuel: nat = full_fuel;
    proof {
        assert(table.chain_for(nm) == table.chain_from(head, full_fuel));
    }
    loop
        invariant
            bytes@ == nm,
            nm == name.spec_bytes(),
            table.chain_ends(i, fuel),
            first_match(table, nm, table.chain_from(i, fuel)) == table.spec_lookup(nm),
        decreases fuel,
    {
        if i == 0 {
            proof {
                assert(table.chain_from(i, fuel) =~= Seq::<u32>::empty());
                lemma_first_match(table, nm, table.chain_for(nm));
            }
            return None;
        }
        let sym = table.symbols[i as usize];
        let mut is_common: bool = true;
        if sym.shndx != 0 {
            is_common = sym.shndx == 0xFFF2;
        }
        let off = sym.name as usize;
        let rest: &[u8] = if off <= table.strtab.len() {
            vstd::slice::slice_subrange(table.strtab.as_slice(), off, table.strtab.len())
        } else {
            &[]
        };
        proof {
            assert(rest@ =~= str_from(table.strtab@, sym.name as int));
        }
        proof {
            assert(table.chain_from(i, fuel)[0] == i);
        }
        if !is_common && rtld_str_compare(bytes, rest) == 0 {
            proof {
                assert(table.matches(nm, i));
                lemma_first_match(table, nm, table.chain_for(nm));
            }
            return Some(i);
        }
        proof {
            assert(table.chain_from(i, fuel).drop_first() =~= table.chain_from(
                table.chains@[i as int],
                (fuel - 1) as nat,
            ));
            fuel = (fuel - 1) as nat;
        }
        i = table.chains[i as usize];
    }
}

} // verus!
