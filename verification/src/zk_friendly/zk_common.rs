//! The Circom / Groth16 toolchain: where each tool and artifact lives, when
//! a cached artifact can be reused, and the command line of each step.
//! Running the commands and reading file times is the caller's part.
use vstd::prelude::*;

use crate::paths::{
    file_name, file_stem, is_absolute, join, path_file_name, path_file_stem, path_is_absolute,
    path_joined, path_with_extension, with_extension,
};
use crate::revocation::env::{is_set, non_blank, opt_view};
use crate::text::{
    append_decimal, append_str, chars_contains, chars_ends_with, chars_starts_with,
    chars_to_string, decimal, is_suffix, str_chars, strings_view, trim, trim_chars,
};

verus! {

/// Iteration counts shared by the prove/verify benchmarks.
pub struct IterArgs {
    /// Measured iterations.
    pub n: usize,
    /// Discarded iterations before the measured ones.
    pub warmup: usize,
    /// Extra verify calls during the warm-up iteration.
    pub verify_warmup: usize,
}

pub open spec fn describe_spec(n: nat, warmup: nat) -> Seq<char> {
    if warmup > 0 {
        decimal(n) + " (+"@ + decimal(warmup) + " warmup discarded)"@
    } else {
        decimal(n)
    }
}

impl IterArgs {
    /// `N (+W warmup discarded)`, or just `N` without warm-up.
    pub fn describe(&self) -> (r: String)
        ensures
            r@ == describe_spec(self.n as nat, self.warmup as nat),
    {
        let mut v: Vec<char> = Vec::new();
        append_decimal(&mut v, self.n as u64);
        if self.warmup > 0 {
            append_str(&mut v, " (+");
            append_decimal(&mut v, self.warmup as u64);
            append_str(&mut v, " warmup discarded)");
        }
        chars_to_string(v.as_slice())
    }
}

/// What a spawned tool produced.
pub struct Output {
    pub ok: bool,
    pub stdout: String,
    pub stderr: String,
}

impl Output {
    /// The tool's own diagnostics: stderr, unless it holds only whitespace.
    pub fn message(&self) -> (r: &str)
        ensures
            r@ == (if trim(self.stderr@).len() == 0 {
                self.stdout@
            } else {
                self.stderr@
            }),
    {
        let e = trim_chars(str_chars(self.stderr.as_str()).as_slice());
        if e.len() == 0 {
            self.stdout.as_str()
        } else {
            self.stderr.as_str()
        }
    }
}

/// Where each external tool lives, and how loud to be about using it.
pub struct Toolchain {
    /// Benchmark directory; every relative path resolves against it.
    pub base_dir: String,
    pub circom: String,
    pub rapidsnark: String,
    pub snarkjs: String,
    /// `-l` include root; must contain `circomlib/circuits/`.
    pub circom_lib: String,
    pub verbose: bool,
}

/// A variable's value when it holds more than whitespace, else `fallback`.
pub open spec fn env_or(value: Option<Seq<char>>, fallback: Seq<char>) -> Seq<char> {
    if is_set(value) {
        value->Some_0
    } else {
        fallback
    }
}

fn env_or_exec(value: Option<String>, fallback: String) -> (r: String)
    ensures
        r@ == env_or(opt_view(value), fallback@),
{
    match non_blank(value) {
        Some(v) => v,
        None => fallback,
    }
}

/// `path` as it is when absolute, else below `base`.
pub open spec fn resolve_spec(base: Seq<char>, path: Seq<char>) -> Seq<char> {
    if path_is_absolute(path) {
        path
    } else {
        path_joined(base, path)
    }
}

/// Resolving an absolute path gives it back, so a resolved path that is
/// absolute resolves to itself.
pub proof fn lemma_resolve_idempotent(base: Seq<char>, path: Seq<char>)
    requires
        path_is_absolute(resolve_spec(base, path)),
    ensures
        resolve_spec(base, resolve_spec(base, path)) == resolve_spec(base, path),
{
}

impl Toolchain {
    /// The toolchain from the values of `CIRCOM_BIN`, `CIRCOM`,
    /// `RAPIDSNARK_BIN`, `SNARKJS_BIN` and `CIRCOM_LIB_PATH`: a blank tool
    /// variable falls back to the name on `PATH`, and an unset library path
    /// to `<stack_root>/circom-libs`.
    pub fn new(
        base_dir: String,
        stack_root: &str,
        circom_bin: Option<String>,
        circom: Option<String>,
        rapidsnark_bin: Option<String>,
        snarkjs_bin: Option<String>,
        circom_lib_path: Option<String>,
        verbose: bool,
    ) -> (t: Toolchain)
        ensures
            t.base_dir@ == base_dir@,
            t.circom@ == env_or(opt_view(circom_bin), env_or(opt_view(circom), "circom"@)),
            t.rapidsnark@ == env_or(opt_view(rapidsnark_bin), "prover"@),
            t.snarkjs@ == env_or(opt_view(snarkjs_bin), "snarkjs"@),
            t.circom_lib@ == (match circom_lib_path {
                Some(p) => p@,
                None => path_joined(stack_root@, "circom-libs"@),
            }),
            t.verbose == verbose,
    {
        let circom_default = env_or_exec(circom, "circom".to_owned());
        let circom = env_or_exec(circom_bin, circom_default);
        let rapidsnark = env_or_exec(rapidsnark_bin, "prover".to_owned());
        let snarkjs = env_or_exec(snarkjs_bin, "snarkjs".to_owned());
        let circom_lib = match circom_lib_path {
            Some(p) => p,
            None => join(stack_root, "circom-libs"),
        };
        Toolchain { base_dir, circom, rapidsnark, snarkjs, circom_lib, verbose }
    }

    /// `path` when absolute, else relative to the benchmark directory. With
    /// an absolute benchmark directory the result is absolute, so resolving
    /// it again gives it back.
    pub fn resolve(&self, path: &str) -> (r: String)
        ensures
            r@ == resolve_spec(self.base_dir@, path@),
            path_is_absolute(self.base_dir@) ==> path_is_absolute(r@),
            path_is_absolute(self.base_dir@) ==> resolve_spec(self.base_dir@, r@) == r@,
    {
        if is_absolute(path) {
            path.to_owned()
        } else {
            join(self.base_dir.as_str(), path)
        }
    }
}

/// Everything one circuit needs, relative to the benchmark directory.
pub struct Groth16Spec {
    pub circom_file: String,
    pub r1cs_file: String,
    pub ptau_file: String,
    pub zkey_file: String,
    pub vkey_file: String,
    pub out_dir: String,
}

/// The circuit's name: its source's file stem, empty when it has none.
pub open spec fn circuit_name_spec(circom_file: Seq<char>) -> Seq<char> {
    match path_file_stem(circom_file) {
        Some(s) => s,
        None => Seq::empty(),
    }
}

impl Groth16Spec {
    /// A circuit whose outputs sit in `out_dir` under the usual names:
    /// `<stem>.r1cs`, `circuit-<stem>.zkey` and `vkey-<stem>.json`.
    pub fn named(circom_file: &str, out_dir: &str, stem: &str, ptau_file: &str) -> (s: Groth16Spec)
        ensures
            s.circom_file@ == circom_file@,
            s.r1cs_file@ == path_joined(out_dir@, stem@ + ".r1cs"@),
            s.ptau_file@ == ptau_file@,
            s.zkey_file@ == path_joined(out_dir@, "circuit-"@ + stem@ + ".zkey"@),
            s.vkey_file@ == path_joined(out_dir@, "vkey-"@ + stem@ + ".json"@),
            s.out_dir@ == out_dir@,
    {
        let mut r1cs = str_chars(stem);
        append_str(&mut r1cs, ".r1cs");
        let mut zkey = str_chars("circuit-");
        append_str(&mut zkey, stem);
        append_str(&mut zkey, ".zkey");
        let mut vkey = str_chars("vkey-");
        append_str(&mut vkey, stem);
        append_str(&mut vkey, ".json");
        Groth16Spec {
            circom_file: chars_to_string(str_chars(circom_file).as_slice()),
            r1cs_file: join(out_dir, chars_to_string(r1cs.as_slice()).as_str()),
            ptau_file: chars_to_string(str_chars(ptau_file).as_slice()),
            zkey_file: join(out_dir, chars_to_string(zkey.as_slice()).as_str()),
            vkey_file: join(out_dir, chars_to_string(vkey.as_slice()).as_str()),
            out_dir: chars_to_string(str_chars(out_dir).as_slice()),
        }
    }

    /// The symbol file circom writes beside the R1CS.
    pub fn sym_file(&self) -> (r: String)
        ensures
            r@ == path_with_extension(self.r1cs_file@, "sym"@),
    {
        proof {
            reveal_strlit("sym");
        }
        with_extension(self.r1cs_file.as_str(), "sym")
    }

    pub fn circuit_name(&self) -> (r: String)
        ensures
            r@ == circuit_name_spec(self.circom_file@),
    {
        match file_stem(self.circom_file.as_str()) {
            Some(s) => s,
            None => String::new(),
        }
    }
}

/// The prover-side artifacts a benchmark iteration needs.
pub struct Artifacts {
    pub witness_bin: String,
    pub zkey: String,
    pub vkey: String,
    pub r1cs: String,
}

impl Artifacts {
    /// The artifacts of a prepared circuit whose witness calculator is
    /// `witness_bin`.
    pub fn of(spec: &Groth16Spec, witness_bin: String) -> (a: Artifacts)
        ensures
            a.witness_bin@ == witness_bin@,
            a.zkey@ == spec.zkey_file@,
            a.vkey@ == spec.vkey_file@,
            a.r1cs@ == spec.r1cs_file@,
    {
        Artifacts {
            witness_bin,
            zkey: spec.zkey_file.clone(),
            vkey: spec.vkey_file.clone(),
            r1cs: spec.r1cs_file.clone(),
        }
    }
}

/// True when the source's time is known and every output exists and is at
/// least as new; times are nanoseconds since the epoch.
pub open spec fn up_to_date_spec(source: Option<u128>, outputs: Seq<Option<u128>>) -> bool {
    match source {
        None => false,
        Some(s) => forall|i: int|
            0 <= i < outputs.len() ==> (#[trigger] outputs[i] matches Some(t) && t >= s),
    }
}

pub fn up_to_date(source: Option<u128>, outputs: &[Option<u128>]) -> (r: bool)
    ensures
        r == up_to_date_spec(source, outputs@),
{
    match source {
        None => false,
        Some(s) => {
            for i in 0..outputs.len()
                invariant
                    source == Some(s),
                    forall|j: int|
                        0 <= j < i ==> (#[trigger] outputs@[j] matches Some(t) && t >= s),
            {
                match outputs[i] {
                    Some(t) => {
                        if t < s {
                            return false;
                        }
                    },
                    None => {
                        return false;
                    },
                }
            }
            true
        },
    }
}

/// How to obtain the proving and verification keys.
#[derive(Clone, Copy, PartialEq, Eq, Debug, Structural)]
pub enum KeysPlan {
    /// Both keys are newer than the R1CS and non-empty.
    Cached,
    /// Only the proving key is fresh: export the verification key from it.
    ExportVkey,
    /// Run the Groth16 setup, then export the verification key.
    Setup,
}

pub fn keys_plan(zkey_fresh: bool, vkey_fresh: bool) -> (r: KeysPlan)
    ensures
        r == (if zkey_fresh && vkey_fresh {
            KeysPlan::Cached
        } else if zkey_fresh {
            KeysPlan::ExportVkey
        } else {
            KeysPlan::Setup
        }),
{
    if zkey_fresh && vkey_fresh {
        KeysPlan::Cached
    } else if zkey_fresh {
        KeysPlan::ExportVkey
    } else {
        KeysPlan::Setup
    }
}

/// A program and its arguments.
pub struct Command {
    pub program: String,
    pub args: Vec<String>,
}

fn owned(s: &str) -> (r: String)
    ensures
        r@ == s@,
{
    s.to_owned()
}

/// The path has no final component to name the circuit source by.
#[derive(Debug)]
pub struct NoFileName {
    pub path: String,
}

/// The circuit source's file name, which circom is run on from the
/// benchmark directory.
pub fn source_file_name(path: &str) -> (r: Result<String, NoFileName>)
    ensures
        match r {
            Ok(n) => path_file_name(path@) == Some(n@),
            Err(e) => path_file_name(path@) is None && e.path@ == path@,
        },
{
    match file_name(path) {
        Some(n) => Ok(n),
        None => Err(NoFileName { path: path.to_owned() }),
    }
}

/// `circom <source> --r1cs --sym -o <out_dir> -l <lib>`, or with `--c
/// --no_asm` in place of `--r1cs --sym` for the C++ witness calculator.
pub open spec fn circom_args_spec(
    source: Seq<char>,
    out_dir: Seq<char>,
    circom_lib: Seq<char>,
    cpp: bool,
) -> Seq<Seq<char>> {
    if cpp {
        seq![source, "--c"@, "--no_asm"@, "-o"@, out_dir, "-l"@, circom_lib]
    } else {
        seq![source, "--r1cs"@, "--sym"@, "-o"@, out_dir, "-l"@, circom_lib]
    }
}

impl Toolchain {
    pub fn circom_command(&self, source: &str, out_dir: &str, cpp: bool) -> (c: Command)
        ensures
            c.program@ == self.circom@,
            strings_view(c.args@) == circom_args_spec(source@, out_dir@, self.circom_lib@, cpp),
    {
        let mut args: Vec<String> = Vec::new();
        args.push(owned(source));
        if cpp {
            args.push(owned("--c"));
            args.push(owned("--no_asm"));
        } else {
            args.push(owned("--r1cs"));
            args.push(owned("--sym"));
        }
        args.push(owned("-o"));
        args.push(owned(out_dir));
        args.push(owned("-l"));
        args.push(self.circom_lib.clone());
        let c = Command { program: self.circom.clone(), args };
        assert(strings_view(c.args@) =~= circom_args_spec(
            source@,
            out_dir@,
            self.circom_lib@,
            cpp,
        ));
        c
    }

    /// `snarkjs groth16 setup <r1cs> <ptau> <zkey>`.
    pub fn setup_command(&self, spec: &Groth16Spec) -> (c: Command)
        ensures
            c.program@ == self.snarkjs@,
            strings_view(c.args@) == seq![
                "groth16"@,
                "setup"@,
                spec.r1cs_file@,
                spec.ptau_file@,
                spec.zkey_file@,
            ],
    {
        let mut args: Vec<String> = Vec::new();
        args.push(owned("groth16"));
        args.push(owned("setup"));
        args.push(spec.r1cs_file.clone());
        args.push(spec.ptau_file.clone());
        args.push(spec.zkey_file.clone());
        let c = Command { program: self.snarkjs.clone(), args };
        assert(strings_view(c.args@) =~= seq![
            "groth16"@,
            "setup"@,
            spec.r1cs_file@,
            spec.ptau_file@,
            spec.zkey_file@,
        ]);
        c
    }

    /// `snarkjs zkey export verificationkey <zkey> <vkey>`.
    pub fn export_vkey_command(&self, spec: &Groth16Spec) -> (c: Command)
        ensures
            c.program@ == self.snarkjs@,
            strings_view(c.args@) == seq![
                "zkey"@,
                "export"@,
                "verificationkey"@,
                spec.zkey_file@,
                spec.vkey_file@,
            ],
    {
        let mut args: Vec<String> = Vec::new();
        args.push(owned("zkey"));
        args.push(owned("export"));
        args.push(owned("verificationkey"));
        args.push(spec.zkey_file.clone());
        args.push(spec.vkey_file.clone());
        let c = Command { program: self.snarkjs.clone(), args };
        assert(strings_view(c.args@) =~= seq![
            "zkey"@,
            "export"@,
            "verificationkey"@,
            spec.zkey_file@,
            spec.vkey_file@,
        ]);
        c
    }

    /// The witness calculator run on `input`, writing `witness`; the
    /// calculator's path resolves against the benchmark directory.
    pub fn witness_command(&self, witness_bin: &str, input: &str, witness: &str) -> (c: Command)
        ensures
            c.program@ == resolve_spec(self.base_dir@, witness_bin@),
            strings_view(c.args@) == seq![input@, witness@],
    {
        let mut args: Vec<String> = Vec::new();
        args.push(owned(input));
        args.push(owned(witness));
        let c = Command { program: self.resolve(witness_bin), args };
        assert(strings_view(c.args@) =~= seq![input@, witness@]);
        c
    }

    /// rapidsnark over a witness: `<zkey> <witness> <proof> <public>`.
    pub fn prover_command(&self, zkey: &str, witness: &str, proof: &str, public: &str) -> (c:
        Command)
        ensures
            c.program@ == self.rapidsnark@,
            strings_view(c.args@) == seq![zkey@, witness@, proof@, public@],
    {
        let mut args: Vec<String> = Vec::new();
        args.push(owned(zkey));
        args.push(owned(witness));
        args.push(owned(proof));
        args.push(owned(public));
        let c = Command { program: self.rapidsnark.clone(), args };
        assert(strings_view(c.args@) =~= seq![zkey@, witness@, proof@, public@]);
        c
    }

    /// Where rapidsnark is looked for: the resolved file when the setting
    /// holds a `/`, else `None` for a lookup on `PATH`.
    pub fn rapidsnark_file(&self) -> (r: Option<String>)
        ensures
            self.rapidsnark@.contains('/') ==> (r matches Some(s) && s@ == resolve_spec(
                self.base_dir@,
                self.rapidsnark@,
            )),
            !self.rapidsnark@.contains('/') ==> r is None,
    {
        let s = str_chars(self.rapidsnark.as_str());
        if chars_contains(s.as_slice(), '/') {
            Some(self.resolve(self.rapidsnark.as_str()))
        } else {
            None
        }
    }
}

/// rapidsnark could not be found.
#[derive(Debug)]
pub enum RapidsnarkError {
    /// The setting names a path, and no file is there.
    NotAtPath(String),
    /// The setting is a bare name, and no directory on `PATH` holds it.
    NotOnPath(String),
}

impl Toolchain {
    /// Checks that rapidsnark is reachable before a long setup starts;
    /// `found` says whether the file from [`Toolchain::rapidsnark_file`], or
    /// the name on `PATH`, exists.
    pub fn ensure_rapidsnark(&self, found: bool) -> (r: Result<(), RapidsnarkError>)
        ensures
            found <==> r is Ok,
            r matches Err(e) ==> (match e {
                RapidsnarkError::NotAtPath(s) => self.rapidsnark@.contains('/') && s@
                    == self.rapidsnark@,
                RapidsnarkError::NotOnPath(s) => !self.rapidsnark@.contains('/') && s@
                    == self.rapidsnark@,
            }),
    {
        if found {
            return Ok(());
        }
        let s = str_chars(self.rapidsnark.as_str());
        if chars_contains(s.as_slice(), '/') {
            Err(RapidsnarkError::NotAtPath(self.rapidsnark.clone()))
        } else {
            Err(RapidsnarkError::NotOnPath(self.rapidsnark.clone()))
        }
    }
}

/// Cleaning an artifacts directory keeps the `summary_*.json` files.
pub open spec fn keeps_summary_spec(name: Seq<char>) -> bool {
    "summary_"@.is_prefix_of(name) && is_suffix(".json"@, name)
}

pub fn keeps_summary(name: &str) -> (r: bool)
    ensures
        r == keeps_summary_spec(name@),
{
    let s = str_chars(name);
    let p = str_chars("summary_");
    let q = str_chars(".json");
    chars_starts_with(s.as_slice(), p.as_slice()) && chars_ends_with(s.as_slice(), q.as_slice())
}

/// Where circom's C++ witness calculator for a circuit is built.
pub struct WitnessPaths {
    /// `<out_dir>/<name>_cpp`, relative to the benchmark directory.
    pub cpp_dir: String,
    /// `<cpp_dir>/<name>`, the calculator binary, relative.
    pub bin: String,
    /// `<cpp_dir>/<name>.dat` beside it, resolved.
    pub dat: String,
}

impl Toolchain {
    pub fn witness_paths(&self, spec: &Groth16Spec) -> (w: WitnessPaths)
        ensures
            ({
                let name = circuit_name_spec(spec.circom_file@);
                let cpp = path_joined(spec.out_dir@, name + "_cpp"@);
                &&& w.cpp_dir@ == cpp
                &&& w.bin@ == path_joined(cpp, name)
                &&& w.dat@ == path_joined(resolve_spec(self.base_dir@, cpp), name + ".dat"@)
            }),
    {
        let name = spec.circuit_name();
        let mut d = str_chars(name.as_str());
        append_str(&mut d, "_cpp");
        let cpp_dir = join(spec.out_dir.as_str(), chars_to_string(d.as_slice()).as_str());
        let bin = join(cpp_dir.as_str(), name.as_str());
        let mut f = str_chars(name.as_str());
        append_str(&mut f, ".dat");
        let cpp_abs = self.resolve(cpp_dir.as_str());
        let dat = join(cpp_abs.as_str(), chars_to_string(f.as_slice()).as_str());
        WitnessPaths { cpp_dir, bin, dat }
    }
}

/// `make -C <cpp_dir>`, which builds the witness calculator.
pub fn make_command(cpp_dir: &str) -> (c: Command)
    ensures
        c.program@ == "make"@,
        strings_view(c.args@) == seq!["-C"@, cpp_dir@],
{
    let mut args: Vec<String> = Vec::new();
    args.push(owned("-C"));
    args.push(owned(cpp_dir));
    let c = Command { program: owned("make"), args };
    assert(strings_view(c.args@) =~= seq!["-C"@, cpp_dir@]);
    c
}

} // verus!
