//! Signatures as the signature window edits them: the pattern text, the numbers typed for
//! them, the value a match resolves to and the outcome shown.
use vstd::prelude::*;
use vstd::string::{StrSliceExecFns, StringExecFns};

use crate::modules::{first_named, ModuleInfo, ModuleList};
use crate::numbers::{char_is_space, hex_or_decimal, is_space, parse_hex_u64};
use crate::scan::{find_pattern_in, first_match};
use crate::ui_state::AppSignature;

verus! {

/// Collapses white space while reading `s` from the left: the text so far, and whether white
/// space has been seen since its last word.
pub open spec fn squeeze_state(s: Seq<char>) -> (Seq<char>, bool)
    decreases s.len(),
{
    if s.len() == 0 {
        (Seq::empty(), false)
    } else {
        let (out, gap) = squeeze_state(s.drop_last());
        let c = s.last();
        if is_space(c) {
            (out, true)
        } else if gap && out.len() > 0 {
            (out.push(' ').push(c), false)
        } else {
            (out.push(c), false)
        }
    }
}

/// The words of `s` (its runs of characters other than white space) joined by single spaces.
pub open spec fn squeezed(s: Seq<char>) -> Seq<char> {
    squeeze_state(s).0
}

/// The pattern with its words joined by single spaces.
pub fn sanitize_pattern(pattern: &str) -> (r: String)
    ensures
        r@ == squeezed(pattern@),
{
    let n = pattern.unicode_len();
    let mut out = String::new();
    let mut gap = false;
    let mut i: usize = 0;
    proof {
        assert(pattern@.take(0) =~= Seq::<char>::empty());
    }
    while i < n
        invariant
            n == pattern@.len(),
            i <= n,
            (out@, gap) == squeeze_state(pattern@.take(i as int)),
        decreases n - i,
    {
        let c = pattern.get_char(i);
        proof {
            assert(pattern@.take(i + 1).drop_last() =~= pattern@.take(i as int));
            assert(pattern@.take(i + 1).last() == c);
        }
        if char_is_space(c) {
            gap = true;
        } else {
            if gap && out.unicode_len() > 0 {
                proof { reveal_strlit(" "); }
                out.append(" ");
            }
            out.append(pattern.substring_char(i, i + 1));
            proof {
                assert(pattern@.subrange(i as int, i + 1) =~= seq![c]);
            }
            gap = false;
        }
        i = i + 1;
    }
    proof {
        assert(pattern@.take(n as int) =~= pattern@);
    }
    out
}

/// The value a signature resolves to from the `u32` read at its match plus offset: that
/// number, or, for a relative address, the number added to the instruction's address and
/// length.
pub fn signature_value(is_relative: bool, inst_len: u64, inst_address: u64, raw: u32) -> (v: u64)
    requires
        is_relative ==> inst_address + raw + inst_len <= u64::MAX,
    ensures
        v == if is_relative { inst_address + raw + inst_len } else { raw as int },
{
    if is_relative {
        inst_address + raw as u64 + inst_len
    } else {
        raw as u64
    }
}

/// The number an edit buffer holds when it parses, else the value kept so far.
pub open spec fn buffered(buf: Seq<char>, kept: u64) -> u64 {
    match hex_or_decimal(buf) {
        Some(v) => v,
        None => kept,
    }
}

impl AppSignature {
    /// Takes the offset and the instruction length from their edit buffers where those hold
    /// a number (hex after `0x`, or decimal), keeping the values so far otherwise.
    pub fn refresh_numbers(&mut self)
        ensures
            final(self).offset == buffered(old(self).offset_buf@, old(self).offset),
            final(self).rel_inst_len == buffered(old(self).rel_inst_len_buf@, old(self).rel_inst_len),
            final(self).name == old(self).name,
            final(self).module == old(self).module,
            final(self).pattern == old(self).pattern,
            final(self).is_relative == old(self).is_relative,
            final(self).offset_buf == old(self).offset_buf,
            final(self).rel_inst_len_buf == old(self).rel_inst_len_buf,
            final(self).last_value == old(self).last_value,
            final(self).last_error == old(self).last_error,
    {
        if let Some(v) = parse_hex_u64(self.offset_buf.as_str()) {
            self.offset = v;
        }
        if let Some(v) = parse_hex_u64(self.rel_inst_len_buf.as_str()) {
            self.rel_inst_len = v;
        }
    }

    /// Shows the outcome of resolving the signature: the value, or the error's text.
    pub fn record_resolution(&mut self, outcome: Result<u64, String>)
        ensures
            match outcome {
                Ok(v) => final(self).last_value == Some(v) && final(self).last_error is None,
                Err(e) => final(self).last_value is None && final(self).last_error == Some(e),
            },
            final(self).name == old(self).name,
            final(self).module == old(self).module,
            final(self).pattern == old(self).pattern,
            final(self).offset == old(self).offset,
            final(self).is_relative == old(self).is_relative,
            final(self).rel_inst_len == old(self).rel_inst_len,
            final(self).offset_buf == old(self).offset_buf,
            final(self).rel_inst_len_buf == old(self).rel_inst_len_buf,
    {
        match outcome {
            Ok(v) => {
                self.last_value = Some(v);
                self.last_error = None;
            },
            Err(e) => {
                self.last_value = None;
                self.last_error = Some(e);
            },
        }
    }
}


/// Where resolving a signature in a module stands: a read that is needed next, the value, or
/// why it cannot be resolved.
#[derive(Debug, PartialEq, Eq)]
pub enum SignatureStep {
    /// The module's bytes are needed: this many from this address.
    ReadModule(u64, u64),
    /// The `u32` stored at this address is needed.
    ReadValue(u64),
    /// The value the signature resolves to.
    Resolved(u64),
    /// No module has the name.
    MissingModule,
    /// The pattern matches nowhere in the module.
    PatternNotFound,
}

pub open spec fn bytes_view(b: Option<&[u8]>) -> Option<Seq<u8>> {
    match b {
        Some(x) => Some(x@),
        None => None,
    }
}

/// Resolving a signature: find the module by name, search its bytes (read from its base) for
/// the pattern, read the `u32` at the match plus `offset`, and take that number, or, for a
/// relative address, add it to the match's address and the instruction length. Each read
/// not made yet is asked for.
pub open spec fn signature_step(
    mods: Seq<ModuleInfo>,
    name: Seq<char>,
    pattern: Seq<Option<u8>>,
    offset: u64,
    is_relative: bool,
    inst_len: u64,
    module_bytes: Option<Seq<u8>>,
    raw: Option<u32>,
) -> SignatureStep {
    match first_named(mods, name) {
        None => SignatureStep::MissingModule,
        Some(m) => match module_bytes {
            None => SignatureStep::ReadModule(mods[m].base_address, mods[m].module_size),
            Some(bytes) => match first_match(bytes, pattern) {
                None => SignatureStep::PatternNotFound,
                Some(i) => {
                    let inst = (mods[m].base_address + i) as u64;
                    match raw {
                        None => SignatureStep::ReadValue((inst + offset) as u64),
                        Some(r) => SignatureStep::Resolved(
                            (if is_relative { inst + r + inst_len } else { r as int }) as u64,
                        ),
                    }
                },
            },
        },
    }
}

/// The additions resolving makes stay within 64 bits.
pub open spec fn signature_fits(
    mods: Seq<ModuleInfo>,
    name: Seq<char>,
    pattern: Seq<Option<u8>>,
    offset: u64,
    is_relative: bool,
    inst_len: u64,
    module_bytes: Option<Seq<u8>>,
    raw: Option<u32>,
) -> bool {
    match (first_named(mods, name), module_bytes) {
        (Some(m), Some(bytes)) => {
            let base = mods[m].base_address;
            &&& base + bytes.len() <= u64::MAX
            &&& match first_match(bytes, pattern) {
                Some(i) => {
                    let inst = (base + i) as u64;
                    &&& inst + offset <= u64::MAX
                    &&& (is_relative && raw is Some) ==> inst + raw->0 + inst_len <= u64::MAX
                },
                None => true,
            }
        },
        _ => true,
    }
}

/// One step of resolving a signature in module `module_name`: given the module's bytes and
/// the `u32` at the match once they have been read, the value; before that, the read needed
/// next; or why the signature cannot be resolved.
pub fn resolve_signature_step(
    mods: &ModuleList,
    module_name: &str,
    pattern: &[Option<u8>],
    offset: u64,
    is_relative: bool,
    inst_len: u64,
    module_bytes: Option<&[u8]>,
    raw: Option<u32>,
) -> (r: SignatureStep)
    requires
        pattern@.len() > 0,
        signature_fits(mods.modules@, module_name@, pattern@, offset, is_relative, inst_len, bytes_view(module_bytes), raw),
    ensures
        r == signature_step(mods.modules@, module_name@, pattern@, offset, is_relative, inst_len, bytes_view(module_bytes), raw),
{
    let m = match mods.get_module_by_name(module_name) {
        Some(m) => m,
        None => {
            return SignatureStep::MissingModule;
        },
    };
    let bytes = match module_bytes {
        Some(b) => b,
        None => {
            return SignatureStep::ReadModule(m.base_address, m.module_size);
        },
    };
    let inst = match find_pattern_in(bytes, m.base_address, pattern) {
        Some(a) => a,
        None => {
            return SignatureStep::PatternNotFound;
        },
    };
    match raw {
        None => SignatureStep::ReadValue(inst + offset),
        Some(r) => SignatureStep::Resolved(signature_value(is_relative, inst_len, inst, r)),
    }
}

} // verus!
