//! The kernel's own ELF tables: sections and symbols, as the boot loader
//! hands them over.

use vstd::prelude::*;

verus! {

/// Section type: a symbol table.
pub const SHT_SYMTAB: u32 = 2;

/// An ELF section header, thirty-two bit class.
#[derive(Clone, Copy, Debug, PartialEq, Eq, Structural)]
pub struct ELF32SectionHeader {
    /// The offset of the section's name in the names section.
    pub sh_name: u32,
    /// The section's type.
    pub sh_type: u32,
    /// The section's address.
    pub sh_addr: u32,
    /// The section's size in bytes.
    pub sh_size: u32,
    /// The size of one entry, for table sections.
    pub sh_entsize: u32,
}

/// An ELF symbol, thirty-two bit class.
#[derive(Clone, Copy, Debug, PartialEq, Eq, Structural)]
pub struct ELF32Sym {
    /// The offset of the symbol's name in the string table.
    pub st_name: u32,
    /// The symbol's value.
    pub st_value: u32,
    /// The symbol's size in bytes.
    pub st_size: u32,
}

/// The kernel image's tables: its sections with their names, and its
/// symbols with theirs.
pub struct KernelImage {
    /// The sections, with each one's name bytes.
    pub sections: Vec<(Vec<u8>, ELF32SectionHeader)>,
    /// The symbols, with each one's name bytes.
    pub symbols: Vec<(Vec<u8>, ELF32Sym)>,
}

impl KernelImage {
    /// Returns the section headers, in table order.
    pub fn sections(&self) -> (r: Vec<ELF32SectionHeader>)
        ensures
            r@.len() == self.sections@.len(),
            forall|i: int| 0 <= i < r@.len() ==> r@[i] == self.sections@[i].1,
    {
        let mut out: Vec<ELF32SectionHeader> = Vec::new();
        let n = self.sections.len();
        let mut i: usize = 0;
        while i < n
            invariant
                i <= n,
                n == self.sections@.len(),
                out@.len() == i,
                forall|j: int| 0 <= j < i ==> out@[j] == self.sections@[j].1,
            decreases n - i,
        {
            out.push(self.sections[i].1);
            i += 1;
        }
        out
    }

    /// Returns the first section carrying the given name.
    pub fn get_section_by_name(&self, name: &[u8]) -> (r: Option<ELF32SectionHeader>)
        ensures
            r matches Some(s) ==> exists|i: int|
                0 <= i < self.sections@.len() && (#[trigger] self.sections@[i]).0@ == name@
                    && self.sections@[i].1 == s,
            r is None ==> forall|i: int|
                0 <= i < self.sections@.len() ==> (#[trigger] self.sections@[i]).0@ != name@,
    {
        let n = self.sections.len();
        let mut i: usize = 0;
        while i < n
            invariant
                i <= n,
                n == self.sections@.len(),
                forall|j: int| 0 <= j < i ==> (#[trigger] self.sections@[j]).0@ != name@,
            decreases n - i,
        {
            if crate::vfs::bytes_same(self.sections[i].0.as_slice(), name) {
                return Some(self.sections[i].1);
            }
            i += 1;
        }
        None
    }

    /// Returns the first symbol carrying the given name.
    pub fn get_symbol_by_name(&self, name: &[u8]) -> (r: Option<ELF32Sym>)
        ensures
            r matches Some(s) ==> exists|i: int|
                0 <= i < self.symbols@.len() && (#[trigger] self.symbols@[i]).0@ == name@
                    && self.symbols@[i].1 == s,
            r is None ==> forall|i: int|
                0 <= i < self.symbols@.len() ==> (#[trigger] self.symbols@[i]).0@ != name@,
    {
        let n = self.symbols.len();
        let mut i: usize = 0;
        while i < n
            invariant
                i <= n,
                n == self.symbols@.len(),
                forall|j: int| 0 <= j < i ==> (#[trigger] self.symbols@[j]).0@ != name@,
            decreases n - i,
        {
            if crate::vfs::bytes_same(self.symbols[i].0.as_slice(), name) {
                return Some(self.symbols[i].1);
            }
            i += 1;
        }
        None
    }

    /// Returns the name of the first symbol whose span holds the given
    /// address: the name of the function an instruction belongs to.
    pub fn get_function_name(&self, inst: u32) -> (r: Option<&Vec<u8>>)
        ensures
            r matches Some(name) ==> exists|i: int|
                0 <= i < self.symbols@.len() && ((#[trigger] self.symbols@[i]).1.st_value <= inst
                    < self.symbols@[i].1.st_value + self.symbols@[i].1.st_size)
                    && self.symbols@[i].0@ == name@,
    {
        let n = self.symbols.len();
        let mut i: usize = 0;
        while i < n
            invariant
                i <= n,
                n == self.symbols@.len(),
            decreases n - i,
        {
            let sym = &self.symbols[i].1;
            if sym.st_value <= inst && (inst as u64) < sym.st_value as u64 + sym.st_size as u64 {
                return Some(&self.symbols[i].0);
            }
            i += 1;
        }
        None
    }
}

} // verus!
