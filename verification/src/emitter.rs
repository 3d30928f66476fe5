//! Emission of the object file: section payloads and the relocation table.
use vstd::prelude::*;
use std::ops::Range;
use crate::argument::{Argument, arg_bytes};
use crate::asm_error::{AssemblerError, ErrorKind, Result};
use crate::bytes::push_all;
use crate::format::{FvmFormat, FVM_VERSION};
use crate::instruction::{Instruction, args_bytes, args_size, used_count, instruction_bytes, lemma_args_bytes_len};
use crate::resolver::ResolvedFile;
use crate::section::Section;
use crate::text::{str_eq, owned, concat};

verus! {

/// The bytes of a data section: its items' encodings one after another.
pub open spec fn items_bytes(s: Seq<Argument>) -> Seq<u8>
    decreases s.len(),
{
    if s.len() == 0 {
        seq![]
    } else {
        items_bytes(s.drop_last()) + arg_bytes(s.last())
    }
}

/// Relocation entries of a data section: one per label item, at the item's offset
/// (offsets are kept modulo 2^32).
pub open spec fn items_relocs(s: Seq<Argument>, section: Section) -> Seq<(Section, u32)>
    decreases s.len(),
{
    if s.len() == 0 {
        seq![]
    } else {
        items_relocs(s.drop_last(), section) + if s.last() is Label {
            seq![(section, items_bytes(s.drop_last()).len() as u32)]
        } else {
            seq![]
        }
    }
}

/// The bytes of the code section: the instructions' encodings one after another.
pub open spec fn code_image(s: Seq<Instruction>) -> Seq<u8>
    decreases s.len(),
{
    if s.len() == 0 {
        seq![]
    } else {
        code_image(s.drop_last()) + instruction_bytes(s.last())
    }
}

/// Relocation entries of the first `k` arguments of an instruction placed at `base`.
pub open spec fn inst_relocs(i: Instruction, base: nat, k: int) -> Seq<(Section, u32)>
    decreases k,
{
    if k <= 0 {
        seq![]
    } else {
        inst_relocs(i, base, k - 1) + if i.arguments@[k - 1] is Label {
            seq![(Section::Code, (base + 1 + args_size(i.arguments@, k - 1)) as u32)]
        } else {
            seq![]
        }
    }
}

/// Relocation entries of the code section: one per label operand, at its offset.
pub open spec fn code_relocs(s: Seq<Instruction>) -> Seq<(Section, u32)>
    decreases s.len(),
{
    if s.len() == 0 {
        seq![]
    } else {
        code_relocs(s.drop_last()) + inst_relocs(
            s.last(),
            code_image(s.drop_last()).len(),
            used_count(s.last().argument_count),
        )
    }
}

/// Encodes a data section and collects its relocation entries.
fn emit_data_section(args: &Vec<Argument>, section: Section) -> (r: (Vec<u8>, Vec<(Section, u32)>))
    ensures
        r.0@ == items_bytes(args@),
        r.1@ == items_relocs(args@, section),
{
    let mut bytes: Vec<u8> = Vec::new();
    let mut relocs: Vec<(Section, u32)> = Vec::new();
    let mut i: usize = 0;
    while i < args.len()
        invariant
            0 <= i <= args@.len(),
            bytes@ == items_bytes(args@.subrange(0, i as int)),
            relocs@ == items_relocs(args@.subrange(0, i as int), section),
        decreases args@.len() - i,
    {
        let ghost p = args@.subrange(0, i as int + 1);
        proof {
            assert(p.drop_last() =~= args@.subrange(0, i as int));
            assert(p.last() == args@[i as int]);
        }
        if matches!(args[i], Argument::Label { .. }) {
            relocs.push((section, bytes.len() as u32));
        }
        let b = args[i].as_bytes();
        match b {
            Ok(b) => push_all(&mut bytes, b.as_slice()),
            Err(_) => {},
        }
        i = i + 1;
        proof {
            assert(bytes@ =~= items_bytes(p));
            assert(relocs@ =~= items_relocs(p, section));
        }
    }
    assert(args@.subrange(0, args@.len() as int) =~= args@);
    (bytes, relocs)
}

/// Encodes the code section and collects its relocation entries.
fn emit_code_section(code: &Vec<Instruction>) -> (r: (Vec<u8>, Vec<(Section, u32)>))
    ensures
        r.0@ == code_image(code@),
        r.1@ == code_relocs(code@),
{
    let mut bytes: Vec<u8> = Vec::new();
    let mut relocs: Vec<(Section, u32)> = Vec::new();
    let mut i: usize = 0;
    while i < code.len()
        invariant
            0 <= i <= code@.len(),
            bytes@ == code_image(code@.subrange(0, i as int)),
            relocs@ == code_relocs(code@.subrange(0, i as int)),
        decreases code@.len() - i,
    {
        let ghost p = code@.subrange(0, i as int + 1);
        let ghost base = bytes@.len();
        let ghost relocs0 = relocs@;
        let ghost bytes0 = bytes@;
        proof {
            assert(p.drop_last() =~= code@.subrange(0, i as int));
            assert(p.last() == code@[i as int]);
        }
        let inst = &code[i];
        bytes.push(inst.opcode.as_byte());
        let n: usize = if inst.argument_count < 3 {
            inst.argument_count
        } else {
            3
        };
        let mut k: usize = 0;
        while k < n
            invariant
                0 <= k <= n <= 3,
                n == used_count(inst.argument_count),
                bytes@ == bytes0 + seq![inst.opcode.code()] + args_bytes(inst.arguments@, k as int),
                relocs@ == relocs0 + inst_relocs(*inst, base, k as int),
                base == bytes0.len(),
            decreases n - k,
        {
            proof {
                lemma_args_bytes_len(inst.arguments@, k as int);
            }
            if matches!(inst.arguments[k], Argument::Label { .. }) {
                relocs.push((Section::Code, bytes.len() as u32));
            }
            let b = inst.arguments[k].as_bytes();
            match b {
                Ok(b) => push_all(&mut bytes, b.as_slice()),
                Err(_) => {},
            }
            k = k + 1;
            proof {
                assert(bytes@ =~= bytes0 + seq![inst.opcode.code()] + args_bytes(inst.arguments@, k as int));
                assert(relocs@ =~= relocs0 + inst_relocs(*inst, base, k as int));
            }
        }
        i = i + 1;
        proof {
            assert(bytes@ =~= code_image(p));
            assert(relocs@ =~= code_relocs(p));
        }
    }
    assert(code@.subrange(0, code@.len() as int) =~= code@);
    (bytes, relocs)
}

/// Address of the label named `name` in a resolved program, if it is defined (the first
/// definition of that name).
pub open spec fn entry_address(labels: Seq<(String, u32)>, name: Seq<char>) -> Option<u32> {
    if exists|i: int| 0 <= i < labels.len() && (#[trigger] labels[i]).0@ == name {
        let i = choose|i: int|
            0 <= i < labels.len() && (#[trigger] labels[i]).0@ == name && forall|j: int|
                0 <= j < i ==> (#[trigger] labels[j]).0@ != name;
        Some(labels[i].1)
    } else {
        None
    }
}

proof fn lemma_first_index(labels: Seq<(String, u32)>, name: Seq<char>, i: int)
    requires
        0 <= i < labels.len(),
        labels[i].0@ == name,
        forall|j: int| 0 <= j < i ==> (#[trigger] labels[j]).0@ != name,
    ensures
        entry_address(labels, name) == Some(labels[i].1),
{
    let c = choose|c: int|
        0 <= c < labels.len() && (#[trigger] labels[c]).0@ == name && forall|j: int|
            0 <= j < c ==> (#[trigger] labels[j]).0@ != name;
    assert(0 <= c < labels.len() && labels[c].0@ == name);
    if c < i {
        assert(labels[c].0@ != name);
    } else if c > i {
        assert(labels[i].0@ != name);
    }
}

/// `f` is the object file of `resolved` with entry label `entry`: the current version, the
/// entry label's address, each section's bytes, and the relocations of the three sections
/// in order.
pub open spec fn emission(resolved: ResolvedFile, entry: Seq<char>, f: FvmFormat) -> bool {
    &&& f.version == FVM_VERSION
    &&& Some(f.entry_point) == entry_address(resolved.labels@, entry)
    &&& f.ro_data@ == items_bytes(resolved.rodata@)
    &&& f.code@ == code_image(resolved.code@)
    &&& f.rw_data@ == items_bytes(resolved.data@)
    &&& f.relocations@ == items_relocs(resolved.rodata@, Section::RoData) + code_relocs(resolved.code@) + items_relocs(
        resolved.data@,
        Section::Data,
    )
}
/// Emits the object file of a resolved program with the entry point at `entry_label`:
/// read-only data, code and data as encoded, and the relocation entries of the three
/// sections in that order. Fails only when the entry label is undefined.
pub fn emit(resolved: ResolvedFile, entry_label: &str) -> (r: Result<FvmFormat>)
    ensures
        r is Ok <==> entry_address(resolved.labels@, entry_label@) is Some,
        r matches Ok(f) ==> emission(resolved, entry_label@, f),
        r matches Err(e) ==> e.located() matches Some((k, _, _, _, _)) && k is Emit,
        r matches Err(e) ==> e is EmitError && e.located() == Some((ErrorKind::Emit, 0u32, 0int, 0int,
            "Entry point label not found: "@ + entry_label@)),
{
    let mut entry: Option<u32> = None;
    let mut i: usize = 0;
    while i < resolved.labels.len()
        invariant
            0 <= i <= resolved.labels@.len(),
            entry is None ==> forall|j: int| 0 <= j < i ==> (#[trigger] resolved.labels@[j]).0@ != entry_label@,
            entry matches Some(a) ==> entry_address(resolved.labels@, entry_label@) == Some(a),
        decreases resolved.labels@.len() - i,
    {
        if entry.is_none() && str_eq(resolved.labels[i].0.as_str(), entry_label) {
            proof {
                lemma_first_index(resolved.labels@, entry_label@, i as int);
            }
            entry = Some(resolved.labels[i].1);
        }
        i = i + 1;
    }
    let entry_addr = match entry {
        Some(a) => a,
        None => {
            return Err(
                AssemblerError::emit(
                    0,
                    Range { start: 0, end: 0 },
                    concat(owned("Entry point label not found: "), entry_label),
                ),
            );
        },
    };
    let (ro_bytes, ro_relocs) = emit_data_section(&resolved.rodata, Section::RoData);
    let (code_bytes, code_relocs) = emit_code_section(&resolved.code);
    let (rw_bytes, rw_relocs) = emit_data_section(&resolved.data, Section::Data);
    let mut relocations: Vec<(Section, u32)> = Vec::new();
    append_relocs(&mut relocations, &ro_relocs);
    append_relocs(&mut relocations, &code_relocs);
    append_relocs(&mut relocations, &rw_relocs);
    Ok(FvmFormat::new(entry_addr, ro_bytes, code_bytes, rw_bytes, relocations))
}

fn append_relocs(dst: &mut Vec<(Section, u32)>, src: &Vec<(Section, u32)>)
    ensures
        final(dst)@ == old(dst)@ + src@,
{
    let mut i: usize = 0;
    while i < src.len()
        invariant
            0 <= i <= src@.len(),
            dst@ == old(dst)@ + src@.subrange(0, i as int),
        decreases src@.len() - i,
    {
        dst.push(src[i]);
        i = i + 1;
        assert(dst@ =~= old(dst)@ + src@.subrange(0, i as int));
    }
    assert(src@.subrange(0, src@.len() as int) =~= src@);
}

} // verus!
