//! Label resolution: lays the sections out one after another (read-only data, code, data)
//! and replaces every label reference by the label's absolute address.
use vstd::prelude::*;
use std::ops::Range;
use crate::argument::Argument;
use crate::asm_error::{AssemblerError, ErrorKind, Result};
use crate::instruction::{Instruction, args_size, used_count};
use crate::parser::{LabelDef, ParsedFile, data_size, code_size, labels_distinct};
use crate::section::Section;
use crate::syntax::{ParsedArgument, ParsedInstruction, parsed_args_size};
use crate::text::{str_eq, owned, concat};

verus! {

/// The program with every label resolved.
#[derive(Debug)]
pub struct ResolvedFile {
    pub rodata: Vec<Argument>,
    pub code: Vec<Instruction>,
    pub data: Vec<Argument>,
    /// The absolute address of every label, in the address space the machine sees.
    pub labels: Vec<(String, u32)>,
}

/// Start address of a section: read-only data at 0, code after it, data after the code.
pub open spec fn section_base(f: ParsedFile, s: Section) -> nat {
    match s {
        Section::RoData => 0,
        Section::Code => data_size(f.rodata@),
        Section::Data => data_size(f.rodata@) + code_size(f.code@),
    }
}

/// Absolute address of the `i`-th label definition.
pub open spec fn label_address(f: ParsedFile, i: int) -> u32 {
    (section_base(f, f.labels@[i].1) + f.labels@[i].2) as u32
}

/// Index of the definition of a label name, if it is defined.
pub open spec fn label_index(f: ParsedFile, name: Seq<char>) -> Option<int> {
    if exists|i: int| 0 <= i < f.labels@.len() && (#[trigger] f.labels@[i]).0@ == name {
        Some(choose|i: int| 0 <= i < f.labels@.len() && (#[trigger] f.labels@[i]).0@ == name)
    } else {
        None
    }
}

/// The resolved form of a parsed argument: values stay, a label reference becomes the
/// label's address and section (`None` when the label is undefined).
pub open spec fn resolve_spec(f: ParsedFile, a: ParsedArgument) -> Option<Argument> {
    match a {
        ParsedArgument::Value(v) => Some(v),
        ParsedArgument::LabelRef(l) => match label_index(f, l.name@) {
            Some(i) => Some(Argument::Label { address: label_address(f, i), section: f.labels@[i].1 }),
            None => None,
        },
    }
}

/// Whether the used arguments of an instruction all resolve.
pub open spec fn inst_resolvable(f: ParsedFile, p: ParsedInstruction) -> bool {
    forall|k: int| 0 <= k < used_count(p.argument_count) ==> #[trigger] resolve_spec(f, p.arguments@[k]) is Some
}

/// The resolved instruction: the used arguments resolved, the others absent.
pub open spec fn resolved_inst(f: ParsedFile, p: ParsedInstruction, i: Instruction) -> bool {
    &&& i.opcode == p.opcode
    &&& i.argument_count == p.argument_count
    &&& i.size == p.size
    &&& forall|k: int|
        0 <= k < 3 ==> #[trigger] i.arguments@[k] == if k < used_count(p.argument_count) {
            resolve_spec(f, p.arguments@[k])->0
        } else {
            Argument::Absent
        }
}

/// Whether every label reference of the program names a defined label.
pub open spec fn all_resolvable(f: ParsedFile) -> bool {
    &&& forall|i: int| 0 <= i < f.rodata@.len() ==> #[trigger] resolve_spec(f, f.rodata@[i]) is Some
    &&& forall|i: int| 0 <= i < f.data@.len() ==> #[trigger] resolve_spec(f, f.data@[i]) is Some
    &&& forall|i: int| 0 <= i < f.code@.len() ==> #[trigger] inst_resolvable(f, f.code@[i])
}

/// `e` is the error for argument `a` naming no label: a resolver error at the reference,
/// `Undefined label: ` and its name.
pub open spec fn undefined_error(a: ParsedArgument, e: AssemblerError) -> bool {
    &&& e is ResolverError
    &&& a matches ParsedArgument::LabelRef(l) && e.located() == Some(
        (ErrorKind::Resolve, l.file, l.span.start as int, l.span.end as int, "Undefined label: "@ + l.name@),
    )
}

/// Item `i` is the first of `items` that does not resolve.
pub open spec fn first_bad_item(f: ParsedFile, items: Seq<ParsedArgument>, i: int) -> bool {
    &&& 0 <= i < items.len()
    &&& resolve_spec(f, items[i]) is None
    &&& forall|j: int| 0 <= j < i ==> #[trigger] resolve_spec(f, items[j]) is Some
}

/// Argument `k` is the first used argument of `p` that does not resolve.
pub open spec fn first_bad_arg(f: ParsedFile, p: ParsedInstruction, k: int) -> bool {
    &&& 0 <= k < used_count(p.argument_count)
    &&& resolve_spec(f, p.arguments@[k]) is None
    &&& forall|j: int| 0 <= j < k ==> #[trigger] resolve_spec(f, p.arguments@[j]) is Some
}

/// Instruction `c` is the first of the code that does not resolve.
pub open spec fn first_bad_inst(f: ParsedFile, c: int) -> bool {
    &&& 0 <= c < f.code@.len()
    &&& !inst_resolvable(f, f.code@[c])
    &&& forall|j: int| 0 <= j < c ==> #[trigger] inst_resolvable(f, f.code@[j])
}

/// `e` is the error of resolving `f`: the first undefined reference, looking at the code
/// first, then the read-only data, then the data.
pub open spec fn resolve_failure(f: ParsedFile, e: AssemblerError) -> bool {
    ||| exists|c: int, k: int| first_bad_inst(f, c) && #[trigger] first_bad_arg(f, f.code@[c], k)
        && undefined_error(f.code@[c].arguments@[k], e)
    ||| (forall|c: int| 0 <= c < f.code@.len() ==> #[trigger] inst_resolvable(f, f.code@[c]))
        && exists|i: int| #[trigger] first_bad_item(f, f.rodata@, i) && undefined_error(f.rodata@[i], e)
    ||| (forall|c: int| 0 <= c < f.code@.len() ==> #[trigger] inst_resolvable(f, f.code@[c]))
        && (forall|i: int| 0 <= i < f.rodata@.len() ==> #[trigger] resolve_spec(f, f.rodata@[i]) is Some)
        && exists|i: int| #[trigger] first_bad_item(f, f.data@, i) && undefined_error(f.data@[i], e)
}

/// Whether a data section resolves item by item.
pub open spec fn resolved_items(f: ParsedFile, p: Seq<ParsedArgument>, r: Seq<Argument>) -> bool {
    &&& r.len() == p.len()
    &&& forall|i: int| 0 <= i < p.len() ==> resolve_spec(f, #[trigger] p[i]) == Some(r[i])
}

fn find_label(labels: &Vec<LabelDef>, name: &str) -> (r: Option<usize>)
    ensures
        r matches Some(i) ==> i < labels@.len() && labels@[i as int].0@ == name@,
        r is None ==> forall|i: int| 0 <= i < labels@.len() ==> (#[trigger] labels@[i]).0@ != name@,
{
    let mut i: usize = 0;
    while i < labels.len()
        invariant
            0 <= i <= labels@.len(),
            forall|j: int| 0 <= j < i ==> (#[trigger] labels@[j]).0@ != name@,
        decreases labels@.len() - i,
    {
        if str_eq(labels[i].0.as_str(), name) {
            return Some(i);
        }
        i = i + 1;
    }
    None
}

/// Resolves one argument against the label table `addrs` (the absolute address of each
/// label definition).
fn resolve_arg(f: &ParsedFile, addrs: &Vec<u32>, arg: &ParsedArgument) -> (r: Result<Argument>)
    requires
        f.wf(),
        addrs@.len() == f.labels@.len(),
        forall|i: int| 0 <= i < addrs@.len() ==> #[trigger] addrs@[i] == label_address(*f, i),
    ensures
        r is Ok <==> resolve_spec(*f, *arg) is Some,
        r matches Ok(a) ==> resolve_spec(*f, *arg) == Some(a),
        r matches Err(e) ==> e.located() matches Some((k, _, _, _, _)) && k is Resolve,
        r matches Err(e) ==> undefined_error(*arg, e),
{
    match arg {
        ParsedArgument::Value(v) => Ok(*v),
        ParsedArgument::LabelRef(l) => match find_label(&f.labels, l.name.as_str()) {
            Some(i) => {
                proof {
                    let j = choose|j: int| 0 <= j < f.labels@.len() && (#[trigger] f.labels@[j]).0@ == l.name@;
                    assert(labels_distinct(f.labels@));
                    assert(j == i);
                }
                Ok(Argument::Label { address: addrs[i], section: f.labels[i].1 })
            },
            None => Err(
                AssemblerError::resolver(
                    l.file,
                    Range { start: l.span.start, end: l.span.end },
                    concat(owned("Undefined label: "), l.name.as_str()),
                ),
            ),
        },
    }
}

proof fn lemma_resolved_size(f: ParsedFile, p: Seq<ParsedArgument>, r: Seq<Argument>, n: int)
    requires
        0 <= n <= 3,
        p.len() == 3,
        r.len() == 3,
        forall|k: int| 0 <= k < n ==> resolve_spec(f, #[trigger] p[k]) == Some(r[k]),
    ensures
        args_size(r, n) == parsed_args_size(p, n),
    decreases n,
{
    if n > 0 {
        lemma_resolved_size(f, p, r, n - 1);
        assert(resolve_spec(f, p[n - 1]) == Some(r[n - 1]));
    }
}

fn resolve_instruction(f: &ParsedFile, addrs: &Vec<u32>, inst: &ParsedInstruction) -> (r: Result<Instruction>)
    requires
        f.wf(),
        inst.well_formed(),
        addrs@.len() == f.labels@.len(),
        forall|i: int| 0 <= i < addrs@.len() ==> #[trigger] addrs@[i] == label_address(*f, i),
    ensures
        r is Ok <==> inst_resolvable(*f, *inst),
        r matches Ok(i) ==> resolved_inst(*f, *inst, i),
        r matches Err(e) ==> e.located() matches Some((k, _, _, _, _)) && k is Resolve,
        r matches Err(e) ==> exists|k: int| #[trigger] first_bad_arg(*f, *inst, k) && undefined_error(inst.arguments@[k], e),
{
    let mut args = [Argument::Absent, Argument::Absent, Argument::Absent];
    let n: usize = if inst.argument_count < 3 {
        inst.argument_count
    } else {
        3
    };
    let mut k: usize = 0;
    while k < n
        invariant
            0 <= k <= n <= 3,
            n == used_count(inst.argument_count),
            f.wf(),
            addrs@.len() == f.labels@.len(),
            forall|i: int| 0 <= i < addrs@.len() ==> #[trigger] addrs@[i] == label_address(*f, i),
            forall|j: int| 0 <= j < k ==> resolve_spec(*f, #[trigger] inst.arguments@[j]) == Some(args@[j]),
            forall|j: int| k <= j < 3 ==> #[trigger] args@[j] == Argument::Absent,
        decreases n - k,
    {
        let a = match resolve_arg(f, addrs, &inst.arguments[k]) {
            Ok(a) => a,
            Err(e) => {
                assert(first_bad_arg(*f, *inst, k as int));
                return Err(e);
            },
        };
        args[k] = a;
        k = k + 1;
    }
    let out = Instruction::new(inst.opcode, args, inst.argument_count);
    proof {
        lemma_resolved_size(*f, inst.arguments@, args@, n as int);
        assert forall|j: int| 0 <= j < 3 implies #[trigger] out.arguments@[j] == if j < used_count(inst.argument_count) {
            resolve_spec(*f, inst.arguments@[j])->0
        } else {
            Argument::Absent
        } by {
            if j < n {
                assert(resolve_spec(*f, inst.arguments@[j]) == Some(args@[j]));
            }
        }
    }
    Ok(out)
}

fn resolve_items(f: &ParsedFile, addrs: &Vec<u32>, items: &Vec<ParsedArgument>) -> (r: Result<Vec<Argument>>)
    requires
        f.wf(),
        addrs@.len() == f.labels@.len(),
        forall|i: int| 0 <= i < addrs@.len() ==> #[trigger] addrs@[i] == label_address(*f, i),
    ensures
        r is Ok <==> forall|i: int| 0 <= i < items@.len() ==> #[trigger] resolve_spec(*f, items@[i]) is Some,
        r matches Ok(v) ==> resolved_items(*f, items@, v@),
        r matches Err(e) ==> e.located() matches Some((k, _, _, _, _)) && k is Resolve,
        r matches Err(e) ==> exists|i: int| #[trigger] first_bad_item(*f, items@, i) && undefined_error(items@[i], e),
{
    let mut out: Vec<Argument> = Vec::new();
    let mut i: usize = 0;
    while i < items.len()
        invariant
            0 <= i <= items@.len(),
            f.wf(),
            addrs@.len() == f.labels@.len(),
            forall|j: int| 0 <= j < addrs@.len() ==> #[trigger] addrs@[j] == label_address(*f, j),
            out@.len() == i,
            forall|j: int| 0 <= j < i ==> resolve_spec(*f, #[trigger] items@[j]) == Some(out@[j]),
        decreases items@.len() - i,
    {
        let a = resolve_arg(f, addrs, &items[i]);
        match a {
            Ok(v) => {
                out.push(v);
            },
            Err(e) => {
                assert(first_bad_item(*f, items@, i as int));
                return Err(e);
            },
        }
        i = i + 1;
    }
    Ok(out)
}

/// `rf` is `parsed` with every label reference replaced by its label's address: items and
/// instructions one for one, and every label with its absolute address.
pub open spec fn resolution(parsed: ParsedFile, rf: ResolvedFile) -> bool {
    &&& resolved_items(parsed, parsed.rodata@, rf.rodata@)
    &&& resolved_items(parsed, parsed.data@, rf.data@)
    &&& rf.code@.len() == parsed.code@.len()
    &&& forall|i: int| 0 <= i < parsed.code@.len() ==> resolved_inst(parsed, #[trigger] parsed.code@[i], rf.code@[i])
    &&& rf.labels@.len() == parsed.labels@.len()
    &&& forall|i: int| 0 <= i < parsed.labels@.len() ==> (#[trigger] rf.labels@[i]).0@ == parsed.labels@[i].0@
        && rf.labels@[i].1 == label_address(parsed, i)
}
/// Resolves every label reference. Succeeds exactly when every reference names a defined
/// label; an undefined one is a resolver error.
pub fn resolve(parsed: ParsedFile) -> (r: Result<ResolvedFile>)
    requires
        parsed.wf(),
    ensures
        r is Ok <==> all_resolvable(parsed),
        r matches Ok(rf) ==> resolution(parsed, rf),
        r matches Err(e) ==> e.located() matches Some((k, _, _, _, _)) && k is Resolve,
        r matches Err(e) ==> resolve_failure(parsed, e),
{
    let ro_len = section_bytes(&parsed.rodata);
    let code_len = code_bytes(&parsed.code);
    let mut addrs: Vec<u32> = Vec::new();
    let mut names: Vec<(String, u32)> = Vec::new();
    let mut i: usize = 0;
    while i < parsed.labels.len()
        invariant
            0 <= i <= parsed.labels@.len(),
            parsed.wf(),
            ro_len == data_size(parsed.rodata@),
            code_len == code_size(parsed.code@),
            addrs@.len() == i,
            names@.len() == i,
            forall|j: int| 0 <= j < i ==> #[trigger] addrs@[j] == label_address(parsed, j),
            forall|j: int| 0 <= j < i ==> (#[trigger] names@[j]).0@ == parsed.labels@[j].0@ && names@[j].1 == label_address(parsed, j),
        decreases parsed.labels@.len() - i,
    {
        let section = parsed.labels[i].1;
        let offset = parsed.labels[i].2;
        assert(offset <= parsed.section_len(section));
        let addr: u32 = match section {
            Section::RoData => offset,
            Section::Code => ro_len + offset,
            Section::Data => ro_len + code_len + offset,
        };
        addrs.push(addr);
        names.push((owned(parsed.labels[i].0.as_str()), addr));
        i = i + 1;
    }
    let mut code: Vec<Instruction> = Vec::new();
    let mut c: usize = 0;
    while c < parsed.code.len()
        invariant
            0 <= c <= parsed.code@.len(),
            parsed.wf(),
            addrs@.len() == parsed.labels@.len(),
            forall|j: int| 0 <= j < addrs@.len() ==> #[trigger] addrs@[j] == label_address(parsed, j),
            code@.len() == c,
            forall|j: int| 0 <= j < c ==> resolved_inst(parsed, #[trigger] parsed.code@[j], code@[j]),
            forall|j: int| 0 <= j < c ==> inst_resolvable(parsed, #[trigger] parsed.code@[j]),
        decreases parsed.code@.len() - c,
    {
        let inst = match resolve_instruction(&parsed, &addrs, &parsed.code[c]) {
            Ok(i) => i,
            Err(e) => {
                assert(first_bad_inst(parsed, c as int));
                return Err(e);
            },
        };
        code.push(inst);
        c = c + 1;
    }
    let rodata = resolve_items(&parsed, &addrs, &parsed.rodata)?;
    let data = resolve_items(&parsed, &addrs, &parsed.data)?;
    Ok(ResolvedFile { rodata, code, data, labels: names })
}

/// Size in bytes of a data section.
fn section_bytes(items: &Vec<ParsedArgument>) -> (n: u32)
    requires
        data_size(items@) <= u32::MAX,
    ensures
        n == data_size(items@),
{
    let mut n: u32 = 0;
    let mut i: usize = 0;
    while i < items.len()
        invariant
            0 <= i <= items@.len(),
            data_size(items@) <= u32::MAX,
            n == data_size(items@.subrange(0, i as int)),
        decreases items@.len() - i,
    {
        proof {
            let p = items@.subrange(0, i as int + 1);
            assert(p.drop_last() =~= items@.subrange(0, i as int));
            lemma_data_prefix(items@, i as int + 1);
        }
        n = n + items[i].size() as u32;
        i = i + 1;
    }
    assert(items@.subrange(0, items@.len() as int) =~= items@);
    n
}

/// Size in bytes of the code section.
fn code_bytes(items: &Vec<ParsedInstruction>) -> (n: u32)
    requires
        code_size(items@) <= u32::MAX,
    ensures
        n == code_size(items@),
{
    let mut n: u32 = 0;
    let mut i: usize = 0;
    while i < items.len()
        invariant
            0 <= i <= items@.len(),
            code_size(items@) <= u32::MAX,
            n == code_size(items@.subrange(0, i as int)),
        decreases items@.len() - i,
    {
        proof {
            let p = items@.subrange(0, i as int + 1);
            assert(p.drop_last() =~= items@.subrange(0, i as int));
            lemma_code_prefix(items@, i as int + 1);
        }
        n = n + items[i].size as u32;
        i = i + 1;
    }
    assert(items@.subrange(0, items@.len() as int) =~= items@);
    n
}

/// A prefix of a data section is no larger than the section.
pub proof fn lemma_data_prefix(s: Seq<ParsedArgument>, k: int)
    requires
        0 <= k <= s.len(),
    ensures
        data_size(s.subrange(0, k)) <= data_size(s),
    decreases s.len(),
{
    if k < s.len() {
        assert(s.drop_last().subrange(0, k) =~= s.subrange(0, k));
        lemma_data_prefix(s.drop_last(), k);
    } else {
        assert(s.subrange(0, k) =~= s);
    }
}

/// A prefix of the code section is no larger than the section.
pub proof fn lemma_code_prefix(s: Seq<ParsedInstruction>, k: int)
    requires
        0 <= k <= s.len(),
    ensures
        code_size(s.subrange(0, k)) <= code_size(s),
    decreases s.len(),
{
    if k < s.len() {
        assert(s.drop_last().subrange(0, k) =~= s.subrange(0, k));
        lemma_code_prefix(s.drop_last(), k);
    } else {
        assert(s.subrange(0, k) =~= s);
    }
}

} // verus!
