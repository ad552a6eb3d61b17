//! How circuits are generated.
use vstd::prelude::*;

use vstd::string::StringExecFns;

verus! {

/// The functions that an emitted struct has.
#[derive(Clone, Copy, Debug, PartialEq, Eq, Structural)]
pub enum LlzkStructLayout {
    ComputeConstrain,
    Product,
    ComputeOnly,
    ConstrainOnly,
}

/// How much the emitted module is cleaned up.
#[derive(Clone, Copy, Debug, PartialEq, Eq, Structural)]
pub enum OptLevel {
    O0,
    O1,
    O2,
}

/// The output of the generation.
#[derive(Clone, Copy, Debug, PartialEq, Eq, Structural)]
pub enum OutputFormat {
    /// LLZK modules.
    Llzk,
    /// Picus constraint modules in MLIR form.
    PclMlir,
    /// Picus constraint programs.
    Pcl,
}

/// A pass over a module.
#[derive(Clone, Copy, Debug, PartialEq, Eq, Structural)]
pub enum Pass {
    CommonSubexpressionElimination,
    Canonicalizer,
    RedundantReadAndWriteElimination,
    ArrayToScalar,
    PclLowering,
}

/// Where a result goes.
#[derive(Debug)]
pub enum Destination {
    Stdout,
    File(String),
    /// A file of the given name in the given directory.
    Directory(String, String),
}

/// The file extension of a format.
pub open spec fn extension_of(format: OutputFormat) -> Seq<char> {
    match format {
        OutputFormat::Llzk => "llzk"@,
        OutputFormat::PclMlir => "mlir"@,
        OutputFormat::Pcl => "pcl"@,
    }
}

impl OutputFormat {
    /// The file extension of the format.
    pub fn extension(&self) -> (r: &'static str)
        ensures
            r@ == extension_of(*self),
    {
        match self {
            OutputFormat::Llzk => "llzk",
            OutputFormat::PclMlir => "mlir",
            OutputFormat::Pcl => "pcl",
        }
    }

    /// The name of the format on the command line.
    pub fn label(&self) -> (r: &'static str)
        ensures
            r@ == match *self {
                OutputFormat::Llzk => "llzk"@,
                OutputFormat::PclMlir => "pcl-mlir"@,
                OutputFormat::Pcl => "pcl"@,
            },
    {
        match self {
            OutputFormat::Llzk => "llzk",
            OutputFormat::PclMlir => "pcl-mlir",
            OutputFormat::Pcl => "pcl",
        }
    }
}

/// Whether a text ends with another.
pub open spec fn ends_with(s: Seq<char>, suffix: Seq<char>) -> bool {
    s.len() >= suffix.len() && s.subrange(s.len() - suffix.len(), s.len() as int) == suffix
}

/// Whether an output names a file.
pub open spec fn names_a_file(output: Seq<char>) -> bool {
    ends_with(output, ".llzk"@) || ends_with(output, ".mlir"@) || ends_with(output, ".pcl"@)
}

fn text_ends_with(s: &str, suffix: &str) -> (r: bool)
    ensures
        r == ends_with(s@, suffix@),
{
    let n = s.unicode_len();
    let m = suffix.unicode_len();
    if n < m {
        return false;
    }
    let mut i: usize = 0;
    while i < m
        invariant
            n == s@.len(),
            m == suffix@.len(),
            m <= n,
            i <= m,
            forall|j: int| 0 <= j < i ==> s@[n - m + j] == suffix@[j],
        decreases m - i,
    {
        if s.get_char(n - m + i) != suffix.get_char(i) {
            proof {
                let tail = s@.subrange(n - m, n as int);
                assert(tail[i as int] == s@[n - m + i]);
            }
            return false;
        }
        i = i + 1;
    }
    assert(s@.subrange(n - m, n as int) =~= suffix@);
    true
}

/// Whether a destination is the one that an output names for a circuit.
pub open spec fn goes_to(
    d: Destination,
    output: Seq<char>,
    format: OutputFormat,
    name: Seq<char>,
) -> bool {
    match d {
        Destination::Stdout => output == "-"@,
        Destination::File(f) => output != "-"@ && names_a_file(output) && f@ == output,
        Destination::Directory(d, f) => {
            &&& output != "-"@
            &&& !names_a_file(output)
            &&& d@ == output
            &&& f@ == name + "."@ + extension_of(format)
        },
    }
}

/// Where the result for a circuit goes: `-` is the standard output, a name with one of the known
/// extensions is a file, and anything else is a directory for a file named after the circuit.
pub fn destination(output: &str, format: OutputFormat, name: &str) -> (r: Destination)
    ensures
        goes_to(r, output@, format, name@),
{
    if output.to_owned() == "-".to_owned() {
        Destination::Stdout
    } else if text_ends_with(output, ".llzk") || text_ends_with(output, ".mlir") || text_ends_with(
        output,
        ".pcl",
    ) {
        Destination::File(output.to_owned())
    } else {
        let mut file = name.to_owned();
        file.append(".");
        file.append(format.extension());
        Destination::Directory(output.to_owned(), file)
    }
}

/// The cleanup passes of a level.
pub open spec fn cleanup_passes(level: OptLevel) -> Seq<Pass> {
    match level {
        OptLevel::O0 => Seq::empty(),
        OptLevel::O1 => seq![Pass::CommonSubexpressionElimination, Pass::Canonicalizer],
        OptLevel::O2 => seq![
            Pass::Canonicalizer,
            Pass::RedundantReadAndWriteElimination,
            Pass::CommonSubexpressionElimination,
            Pass::Canonicalizer,
        ],
    }
}

/// The passes that convert to a format.
pub open spec fn conversion_passes(format: OutputFormat) -> Seq<Pass> {
    match format {
        OutputFormat::Llzk => Seq::empty(),
        _ => seq![Pass::ArrayToScalar, Pass::PclLowering],
    }
}

/// The passes to run: cleanup first, then conversion to the format.
pub fn optimizer_pipeline(format: OutputFormat, opt_level: OptLevel) -> (r: Vec<Pass>)
    ensures
        r@ == cleanup_passes(opt_level) + conversion_passes(format),
{
    let mut passes: Vec<Pass> = Vec::new();
    match opt_level {
        OptLevel::O0 => {},
        OptLevel::O1 => {
            passes.push(Pass::CommonSubexpressionElimination);
            passes.push(Pass::Canonicalizer);
        },
        OptLevel::O2 => {
            passes.push(Pass::Canonicalizer);
            passes.push(Pass::RedundantReadAndWriteElimination);
            passes.push(Pass::CommonSubexpressionElimination);
            passes.push(Pass::Canonicalizer);
        },
    }
    match format {
        OutputFormat::Llzk => {},
        OutputFormat::PclMlir | OutputFormat::Pcl => {
            passes.push(Pass::ArrayToScalar);
            passes.push(Pass::PclLowering);
        },
    }
    assert(passes@ =~= cleanup_passes(opt_level) + conversion_passes(format));
    passes
}

/// The number of bytecode words that fill the ROM, given the bits of its high limb.
pub fn bytecode_size(rom_second_word_bits: u32) -> (r: usize)
    requires
        rom_second_word_bits < 16,
    ensures
        r == vstd::arithmetic::power2::pow2((14 + rom_second_word_bits) as nat),
{
    proof {
        vstd::arithmetic::power2::lemma2_to64();
        vstd::arithmetic::power2::lemma_pow2_strictly_increases(
            (16 + rom_second_word_bits) as nat,
            32,
        );
        vstd::arithmetic::power2::lemma_pow2_adds((14 + rom_second_word_bits) as nat, 2);
        vstd::bits::lemma_u32_shl_is_mul(1, (16 + rom_second_word_bits) as u32);
        vstd::arithmetic::div_mod::lemma_div_by_multiple(
            vstd::arithmetic::power2::pow2((14 + rom_second_word_bits) as nat) as int,
            4,
        );
    }
    ((1u32 << (16 + rom_second_word_bits)) / 4) as usize
}

/// The circuits that can be generated, in order.
#[derive(Clone, Copy, Debug, PartialEq, Eq, Structural)]
pub enum CircuitFamily {
    AddSubLuiAuipcMop,
    JumpBranchSlt,
    LoadStoreSubwordOnly,
}

/// The name of the circuit of a family.
pub open spec fn family_name(family: CircuitFamily) -> Seq<char> {
    match family {
        CircuitFamily::AddSubLuiAuipcMop => "add_sub_lui_auipc_mop"@,
        CircuitFamily::JumpBranchSlt => "jump_branch_slt"@,
        CircuitFamily::LoadStoreSubwordOnly => "load_store_subword_only"@,
    }
}

impl CircuitFamily {
    /// The name of the circuit.
    pub fn name(&self) -> (r: &'static str)
        ensures
            r@ == family_name(*self),
    {
        match self {
            CircuitFamily::AddSubLuiAuipcMop => "add_sub_lui_auipc_mop",
            CircuitFamily::JumpBranchSlt => "jump_branch_slt",
            CircuitFamily::LoadStoreSubwordOnly => "load_store_subword_only",
        }
    }
}

/// The name of the circuit field in emitted modules.
pub trait FieldInfo {
    spec fn name_of_field() -> Seq<char>;

    fn field_name() -> (r: &'static str)
        ensures
            r@ == Self::name_of_field(),
    ;
}

impl FieldInfo for crate::circuit::Mersenne31Field {
    open spec fn name_of_field() -> Seq<char> {
        "mersenne31"@
    }

    fn field_name() -> (r: &'static str) {
        "mersenne31"
    }
}

/// A text ends with another exactly where it is something with that text after it.
pub proof fn endings_are_appended(s: Seq<char>, suffix: Seq<char>)
    ensures
        ends_with(s, suffix) <==> exists|stem: Seq<char>| s == #[trigger] (stem + suffix),
{
    if ends_with(s, suffix) {
        let stem = s.take(s.len() - suffix.len());
        assert(s =~= stem + suffix);
    }
    if exists|stem: Seq<char>| s == #[trigger] (stem + suffix) {
        let stem = choose|stem: Seq<char>| s == #[trigger] (stem + suffix);
        assert(s.subrange(s.len() - suffix.len(), s.len() as int) =~= suffix);
    }
}

/// A dash is the standard output; a name with one of the extensions, whatever the format is, is that
/// file; and anything else is a directory, in which the file is named after the circuit.
pub proof fn destinations_follow_the_output(
    d: Destination,
    output: Seq<char>,
    format: OutputFormat,
    name: Seq<char>,
)
    requires
        goes_to(d, output, format, name),
    ensures
        d is Stdout <==> output == "-"@,
        forall|stem: Seq<char>|
            output == #[trigger] (stem + ".llzk"@) ==> (d matches
                Destination::File(f) && f@ == output),
        forall|stem: Seq<char>|
            output == #[trigger] (stem + ".mlir"@) ==> (d matches
                Destination::File(f) && f@ == output),
        forall|stem: Seq<char>|
            output == #[trigger] (stem + ".pcl"@) ==> (d matches
                Destination::File(f) && f@ == output),
        d is File ==> (exists|stem: Seq<char>|
            output == #[trigger] (stem + ".llzk"@)) || (exists|
            stem: Seq<char>,
        |
            output == #[trigger] (stem + ".mlir"@)) || (exists|
            stem: Seq<char>,
        |
            output == #[trigger] (stem + ".pcl"@)),
        d matches Destination::Directory(dir, f) ==> dir@ == output && f@ == name + (match format {
            OutputFormat::Llzk => ".llzk"@,
            OutputFormat::PclMlir => ".mlir"@,
            OutputFormat::Pcl => ".pcl"@,
        }),
{
    reveal_strlit("-");
    reveal_strlit(".");
    reveal_strlit("llzk");
    reveal_strlit("mlir");
    reveal_strlit("pcl");
    reveal_strlit(".llzk");
    reveal_strlit(".mlir");
    reveal_strlit(".pcl");
    endings_are_appended(output, ".llzk"@);
    endings_are_appended(output, ".mlir"@);
    endings_are_appended(output, ".pcl"@);
    assert forall|stem: Seq<char>|
        output == #[trigger] (stem + ".llzk"@) implies (d matches
        Destination::File(f) && f@ == output) by {
        assert(output.len() >= 5);
    }
    assert forall|stem: Seq<char>|
        output == #[trigger] (stem + ".mlir"@) implies (d matches
        Destination::File(f) && f@ == output) by {
        assert(output.len() >= 5);
    }
    assert forall|stem: Seq<char>| output == #[trigger] (stem + ".pcl"@) implies (
    d matches Destination::File(f) && f@ == output) by {
        assert(output.len() >= 4);
    }
    if let Destination::Directory(dir, f) = d {
        match format {
            OutputFormat::Llzk => {
                assert(f@ =~= name + ".llzk"@);
            },
            OutputFormat::PclMlir => {
                assert(f@ =~= name + ".mlir"@);
            },
            OutputFormat::Pcl => {
                assert(f@ =~= name + ".pcl"@);
            },
        }
    }
}

/// A module that stays as it is is not converted, one that is converted is so after its cleanup, and
/// without cleanup nothing else is done.
pub proof fn conversions_come_last(format: OutputFormat, level: OptLevel, passes: Seq<Pass>)
    requires
        passes == cleanup_passes(level) + conversion_passes(format),
    ensures
        format is Llzk <==> !passes.contains(Pass::PclLowering),
        !(format is Llzk) ==> passes.len() >= 2 && passes.last() == Pass::PclLowering
            && passes[passes.len() - 2] == Pass::ArrayToScalar,
        !(format is Llzk) ==> passes.drop_last().drop_last() == cleanup_passes(level),
        format is Llzk && level is O0 ==> passes.len() == 0,
        !(format is Llzk) && level is O0 ==> passes.len() == 2,
        !(level is O0) ==> passes.contains(Pass::Canonicalizer) && passes.contains(
            Pass::CommonSubexpressionElimination,
        ),
        passes.contains(Pass::RedundantReadAndWriteElimination) <==> level is O2,
        level is O2 ==> passes[0] == Pass::Canonicalizer && passes[3] == Pass::Canonicalizer,
{
    let cleanup = cleanup_passes(level);
    match format {
        OutputFormat::Llzk => {
            assert(passes =~= cleanup);
        },
        _ => {
            assert(passes[cleanup.len() as int + 1] == Pass::PclLowering);
            assert(passes.drop_last().drop_last() =~= cleanup);
        },
    }
    match level {
        OptLevel::O0 => {},
        OptLevel::O1 => {
            assert(passes[0] == Pass::CommonSubexpressionElimination);
            assert(passes[1] == Pass::Canonicalizer);
        },
        OptLevel::O2 => {
            assert(passes[0] == Pass::Canonicalizer);
            assert(passes[1] == Pass::RedundantReadAndWriteElimination);
            assert(passes[2] == Pass::CommonSubexpressionElimination);
        },
    }
}

/// Circuits have different names, so that their files in one directory differ.
pub proof fn circuit_files_differ(a: CircuitFamily, b: CircuitFamily)
    ensures
        family_name(a) == family_name(b) ==> a == b,
{
    reveal_strlit("add_sub_lui_auipc_mop");
    reveal_strlit("jump_branch_slt");
    reveal_strlit("load_store_subword_only");
    assert("add_sub_lui_auipc_mop"@.len() == 21);
    assert("jump_branch_slt"@.len() == 15);
    assert("load_store_subword_only"@.len() == 23);
}

} // verus!
