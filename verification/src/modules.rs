//! The modules of the target process: looking them up by name or address.
use vstd::prelude::*;
use vstd::string::StringExecFns;

use crate::numbers::chars_of;

verus! {

/// A module loaded in the target process: its base file name (when known), where it starts
/// and how many bytes it spans.
#[derive(Debug, Clone)]
pub struct ModuleInfo {
    pub name: Option<String>,
    pub base_address: u64,
    pub module_size: u64,
}

/// The character with ASCII upper-case letters made lower-case.
pub open spec fn ascii_lower(c: char) -> char {
    if 'A' <= c && c <= 'Z' {
        ((c as u32) + 32) as char
    } else {
        c
    }
}

/// The two texts are equal once ASCII letters are compared without case.
pub open spec fn eq_ignore_ascii_case(a: Seq<char>, b: Seq<char>) -> bool {
    a.len() == b.len() && forall|i: int| 0 <= i < a.len() ==> #[trigger] ascii_lower(a[i]) == ascii_lower(b[i])
}

/// The module's base name matches `name` without ASCII case.
pub open spec fn module_named(m: ModuleInfo, name: Seq<char>) -> bool {
    match m.name {
        Some(n) => eq_ignore_ascii_case(n@, name),
        None => false,
    }
}

/// The module's end address fits in 64 bits.
pub open spec fn end_fits(m: ModuleInfo) -> bool {
    m.base_address + m.module_size <= u64::MAX
}

/// `address` lies inside the module.
pub open spec fn holds_address(m: ModuleInfo, address: u64) -> bool {
    m.base_address <= address < m.base_address + m.module_size
}

/// The first module, in list order, whose base name matches `name`.
pub open spec fn first_named(mods: Seq<ModuleInfo>, name: Seq<char>) -> Option<int> {
    if exists|i: int| 0 <= i < mods.len() && module_named(#[trigger] mods[i], name) {
        Some(choose|i: int| 0 <= i < mods.len() && module_named(#[trigger] mods[i], name)
            && forall|j: int| 0 <= j < i ==> !module_named(#[trigger] mods[j], name))
    } else {
        None
    }
}

/// The first module, in list order, that holds `address`.
pub open spec fn first_holding(mods: Seq<ModuleInfo>, address: u64) -> Option<int> {
    if exists|i: int| 0 <= i < mods.len() && holds_address(#[trigger] mods[i], address) {
        Some(choose|i: int| 0 <= i < mods.len() && holds_address(#[trigger] mods[i], address)
            && forall|j: int| 0 <= j < i ==> !holds_address(#[trigger] mods[j], address))
    } else {
        None
    }
}

/// Every module looked at while searching for `address` (those before the first that holds
/// it, and that one) ends within 64 bits.
pub open spec fn address_search_fits(mods: Seq<ModuleInfo>, address: u64) -> bool {
    forall|i: int| 0 <= i < mods.len() && (forall|j: int| 0 <= j < i ==> !holds_address(#[trigger] mods[j], address))
        ==> end_fits(#[trigger] mods[i])
}

fn char_lower(c: char) -> (r: char)
    ensures
        r == ascii_lower(c),
{
    if 'A' <= c && c <= 'Z' {
        ((c as u8) + 32) as char
    } else {
        c
    }
}

/// Compares two texts, ignoring the case of ASCII letters.
pub fn str_eq_ignore_ascii_case(a: &str, b: &str) -> (r: bool)
    ensures
        r == eq_ignore_ascii_case(a@, b@),
{
    let x = chars_of(a);
    let y = chars_of(b);
    if x.len() != y.len() {
        return false;
    }
    let mut i: usize = 0;
    while i < x.len()
        invariant
            x@ == a@,
            y@ == b@,
            x@.len() == y@.len(),
            i <= x@.len(),
            forall|j: int| 0 <= j < i ==> #[trigger] ascii_lower(x@[j]) == ascii_lower(y@[j]),
        decreases x@.len() - i,
    {
        if char_lower(x[i]) != char_lower(y[i]) {
            return false;
        }
        i = i + 1;
    }
    true
}

proof fn lemma_first_named(mods: Seq<ModuleInfo>, name: Seq<char>, i: int)
    requires
        0 <= i <= mods.len(),
        forall|j: int| 0 <= j < i ==> !module_named(#[trigger] mods[j], name),
        i < mods.len() ==> module_named(mods[i], name),
    ensures
        first_named(mods, name) == (if i < mods.len() { Some(i) } else { None::<int> }),
{
    if i < mods.len() {
        let k = choose|k: int| 0 <= k < mods.len() && module_named(#[trigger] mods[k], name)
            && forall|j: int| 0 <= j < k ==> !module_named(#[trigger] mods[j], name);
        if k < i {
            assert(!module_named(mods[k], name));
        }
        if k > i {
            assert(!module_named(mods[i], name));
        }
    }
}

proof fn lemma_first_holding(mods: Seq<ModuleInfo>, address: u64, i: int)
    requires
        0 <= i <= mods.len(),
        forall|j: int| 0 <= j < i ==> !holds_address(#[trigger] mods[j], address),
        i < mods.len() ==> holds_address(mods[i], address),
    ensures
        first_holding(mods, address) == (if i < mods.len() { Some(i) } else { None::<int> }),
{
    if i < mods.len() {
        let k = choose|k: int| 0 <= k < mods.len() && holds_address(#[trigger] mods[k], address)
            && forall|j: int| 0 <= j < k ==> !holds_address(#[trigger] mods[j], address);
        if k < i {
            assert(!holds_address(mods[k], address));
        }
        if k > i {
            assert(!holds_address(mods[i], address));
        }
    }
}

/// The modules of the target process, in the order the driver listed them.
#[derive(Debug, Clone)]
pub struct ModuleList {
    pub modules: Vec<ModuleInfo>,
}

impl ModuleList {
    /// The first module whose base name matches `module_name` without ASCII case.
    pub fn get_module_by_name(&self, module_name: &str) -> (r: Option<&ModuleInfo>)
        ensures
            match first_named(self.modules@, module_name@) {
                Some(i) => r == Some(&self.modules@[i]),
                None => r is None,
            },
    {
        let mut i: usize = 0;
        while i < self.modules.len()
            invariant
                i <= self.modules@.len(),
                forall|j: int| 0 <= j < i ==> !module_named(#[trigger] self.modules@[j], module_name@),
            decreases self.modules@.len() - i,
        {
            let m = &self.modules[i];
            let hit = match &m.name {
                Some(n) => str_eq_ignore_ascii_case(n.as_str(), module_name),
                None => false,
            };
            if hit {
                proof { lemma_first_named(self.modules@, module_name@, i as int); }
                return Some(m);
            }
            i = i + 1;
        }
        proof { lemma_first_named(self.modules@, module_name@, i as int); }
        None
    }

    /// The first module that holds `address`.
    pub fn get_module_by_address(&self, address: u64) -> (r: Option<&ModuleInfo>)
        requires
            address_search_fits(self.modules@, address),
        ensures
            match first_holding(self.modules@, address) {
                Some(i) => r == Some(&self.modules@[i]),
                None => r is None,
            },
    {
        let mut i: usize = 0;
        while i < self.modules.len()
            invariant
                i <= self.modules@.len(),
                address_search_fits(self.modules@, address),
                forall|j: int| 0 <= j < i ==> !holds_address(#[trigger] self.modules@[j], address),
            decreases self.modules@.len() - i,
        {
            let m = &self.modules[i];
            proof { assert(end_fits(self.modules@[i as int])); }
            if address >= m.base_address && address < m.base_address + m.module_size {
                proof { lemma_first_holding(self.modules@, address, i as int); }
                return Some(m);
            }
            i = i + 1;
        }
        proof { lemma_first_holding(self.modules@, address, i as int); }
        None
    }

    /// The offset of `address` inside the module named `module_name`, if it lies there.
    pub fn module_address(&self, module_name: &str, address: u64) -> (r: Option<u64>)
        requires
            first_named(self.modules@, module_name@) matches Some(i) ==> end_fits(self.modules@[i]),
        ensures
            r == match first_named(self.modules@, module_name@) {
                Some(i) => if holds_address(self.modules@[i], address) {
                    Some((address - self.modules@[i].base_address) as u64)
                } else {
                    None
                },
                None => None,
            },
    {
        let module = match self.get_module_by_name(module_name) {
            Some(m) => m,
            None => {
                return None;
            },
        };
        if address < module.base_address || address >= module.base_address + module.module_size {
            None
        } else {
            Some(address - module.base_address)
        }
    }

    /// The address `offset` bytes into the module named `module_name`; an error naming the
    /// module when there is none.
    pub fn memory_address(&self, module_name: &str, offset: u64) -> (r: Result<u64, String>)
        requires
            first_named(self.modules@, module_name@) matches Some(i) ==> self.modules@[i].base_address + offset <= u64::MAX,
        ensures
            match first_named(self.modules@, module_name@) {
                Some(i) => r == Ok::<u64, String>((self.modules@[i].base_address + offset) as u64),
                None => r matches Err(e) && e@ == "missing module "@ + module_name@,
            },
    {
        match self.get_module_by_name(module_name) {
            Some(m) => Ok(m.base_address + offset),
            None => Err(missing_module(module_name)),
        }
    }

    /// The size of the module named `module_name`; an error naming the module when there is none.
    pub fn module_size(&self, module_name: &str) -> (r: Result<u64, String>)
        ensures
            match first_named(self.modules@, module_name@) {
                Some(i) => r == Ok::<u64, String>(self.modules@[i].module_size),
                None => r matches Err(e) && e@ == "missing module "@ + module_name@,
            },
    {
        match self.get_module_by_name(module_name) {
            Some(m) => Ok(m.module_size),
            None => Err(missing_module(module_name)),
        }
    }
}

fn missing_module(module_name: &str) -> (r: String)
    ensures
        r@ == "missing module "@ + module_name@,
{
    proof { reveal_strlit("missing module "); }
    let mut s = String::from_str("missing module ");
    s.append(module_name);
    s
}

} // verus!
