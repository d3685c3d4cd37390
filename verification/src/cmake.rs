//! The CMake invocations that build the platform binary of a source code FMU.
use vstd::prelude::*;

verus! {

/// The options of the `build` command.
pub struct BuildArgs {
    /// Path to the FMU file.
    pub fmu_file: String,
    /// Path to the generated CMake project directory (default: a temporary directory).
    pub project_path: Option<String>,
    /// CMake generator to use (default: the platform's).
    pub cmake_generator: Option<String>,
    /// CMake architecture to use (default: the platform's).
    pub cmake_architecture: Option<String>,
    /// Additional CMake options, each passed as `-D<option>`.
    pub cmake_options: Vec<String>,
    /// Build for debugging (default: a release build).
    pub debug: bool,
}

/// `path` with every backslash replaced by a slash.
pub open spec fn with_forward_slashes(path: Seq<char>) -> Seq<char> {
    path.map_values(|c: char| if c == '\\' { '/' } else { c })
}

/// Replaces every backslash of a path by a slash, as CMake expects.
pub fn forward_slashes(path: &str) -> (r: String)
    ensures
        r@ == with_forward_slashes(path@),
{
    let n = path.unicode_len();
    let mut r = String::new();
    let mut i: usize = 0;
    while i < n
        invariant
            n == path@.len(),
            i <= n,
            r@ == with_forward_slashes(path@.take(i as int)),
        decreases n - i,
    {
        proof {
            reveal_strlit("/");
        }
        if path.get_char(i) == '\\' {
            r.append("/");
        } else {
            r.append(path.substring_char(i, i + 1));
        }
        assert(r@ =~= with_forward_slashes(path@.take(i + 1)));
        i = i + 1;
    }
    assert(path@.take(n as int) =~= path@);
    r
}

/// The CMake build type: `Release`, or `Debug` for a debug build.
pub open spec fn build_type(debug: bool) -> Seq<char> {
    if debug {
        "Debug"@
    } else {
        "Release"@
    }
}

/// `-G` and the generator, when one is given.
pub open spec fn generator_args(args: BuildArgs) -> Seq<Seq<char>> {
    match args.cmake_generator {
        Some(g) => seq!["-G"@, g@],
        None => Seq::empty(),
    }
}

/// `-A` and the architecture, when one is given.
pub open spec fn architecture_args(args: BuildArgs) -> Seq<Seq<char>> {
    match args.cmake_architecture {
        Some(a) => seq!["-A"@, a@],
        None => Seq::empty(),
    }
}

/// The arguments with which CMake configures the project: the build and source
/// directories, the generator and architecture when given, each additional
/// option as a definition, and the build type.
pub open spec fn configure_args_spec(
    args: BuildArgs,
    build_path: Seq<char>,
    source_path: Seq<char>,
) -> Seq<Seq<char>> {
    seq!["-B"@, build_path, "-S"@, source_path] + generator_args(args) + architecture_args(args)
        + args.cmake_options@.map_values(|o: String| "-D"@ + o@) + seq![
        "-DCMAKE_BUILD_TYPE="@ + build_type(args.debug),
    ]
}

/// The arguments with which CMake builds the configured project.
pub open spec fn build_args_spec(build_path: Seq<char>, debug: bool) -> Seq<Seq<char>> {
    seq!["--build"@, build_path, "--config"@, build_type(debug)]
}

fn push_str(v: &mut Vec<String>, s: &str)
    ensures
        final(v).deep_view() == old(v).deep_view().push(s@),
{
    let ghost before = v.deep_view();
    v.push(s.to_owned());
    assert(v.deep_view() =~= before.push(s@));
}

/// Lists the arguments of the CMake call that configures the project.
pub fn cmake_configure_args(args: &BuildArgs, build_path: &str, source_path: &str) -> (r: Vec<String>)
    ensures
        r.deep_view() == configure_args_spec(*args, build_path@, source_path@),
{
    let mut r: Vec<String> = Vec::new();
    push_str(&mut r, "-B");
    push_str(&mut r, build_path);
    push_str(&mut r, "-S");
    push_str(&mut r, source_path);
    let ghost base = r.deep_view();
    if let Some(generator) = &args.cmake_generator {
        push_str(&mut r, "-G");
        push_str(&mut r, generator.as_str());
    }
    let ghost with_generator = r.deep_view();
    if let Some(architecture) = &args.cmake_architecture {
        push_str(&mut r, "-A");
        push_str(&mut r, architecture.as_str());
    }
    let ghost before_options = r.deep_view();
    let options = &args.cmake_options;
    let n = options.len();
    let mut i: usize = 0;
    while i < n
        invariant
            n == options@.len(),
            options@ == args.cmake_options@,
            i <= n,
            r.deep_view() == before_options + options@.take(i as int).map_values(
                |o: String| "-D"@ + o@,
            ),
        decreases n - i,
    {
        let mut definition = "-D".to_owned();
        definition.append(options[i].as_str());
        push_str(&mut r, definition.as_str());
        assert(options@.take(i + 1).map_values(|o: String| "-D"@ + o@) =~= options@.take(
            i as int,
        ).map_values(|o: String| "-D"@ + o@).push("-D"@ + options@[i as int]@));
        i = i + 1;
    }
    assert(options@.take(n as int) =~= options@);
    let mut build_type_definition = "-DCMAKE_BUILD_TYPE=".to_owned();
    if args.debug {
        build_type_definition.append("Debug");
    } else {
        build_type_definition.append("Release");
    }
    push_str(&mut r, build_type_definition.as_str());
    proof {
        let gen = generator_args(*args);
        let arch = architecture_args(*args);
        assert(base =~= seq!["-B"@, build_path@, "-S"@, source_path@]);
        assert(with_generator =~= base + gen);
        assert(before_options =~= base + gen + arch);
        assert(r.deep_view() =~= configure_args_spec(*args, build_path@, source_path@));
    }
    r
}

/// Lists the arguments of the CMake call that builds the configured project.
pub fn cmake_build_args(build_path: &str, debug: bool) -> (r: Vec<String>)
    ensures
        r.deep_view() == build_args_spec(build_path@, debug),
{
    let mut r: Vec<String> = Vec::new();
    push_str(&mut r, "--build");
    push_str(&mut r, build_path);
    push_str(&mut r, "--config");
    if debug {
        push_str(&mut r, "Debug");
    } else {
        push_str(&mut r, "Release");
    }
    assert(r.deep_view() =~= build_args_spec(build_path@, debug));
    r
}

/// The configure arguments, place by place: the build directory after `-B`
/// and the source directory after `-S`; then `-G` and the generator whenever
/// one is given, whatever the architecture; then `-A` and the architecture
/// whenever one is given; then each additional option, in order, as `-D` and
/// the option; and last the build type, `Debug` for a debug build and
/// `Release` otherwise. Nothing else is passed.
pub proof fn lemma_configure_args_layout(args: BuildArgs, build_path: Seq<char>, source_path: Seq<char>)
    ensures
        ({
            let r = configure_args_spec(args, build_path, source_path);
            let g: int = if args.cmake_generator is Some { 2 } else { 0 };
            let a: int = if args.cmake_architecture is Some { 2 } else { 0 };
            let n = args.cmake_options@.len() as int;
            &&& r.len() == 5 + g + a + n
            &&& r[0] == "-B"@ && r[1] == build_path && r[2] == "-S"@ && r[3] == source_path
            &&& (args.cmake_generator matches Some(generator) ==> r[4] == "-G"@ && r[5] == generator@)
            &&& (args.cmake_architecture matches Some(architecture) ==> r[4 + g] == "-A"@ && r[5 + g]
                == architecture@)
            &&& forall|k: int| 0 <= k < n ==> r[4 + g + a + k] == "-D"@ + args.cmake_options@[k]@
            &&& r[4 + g + a + n] == "-DCMAKE_BUILD_TYPE="@ + (if args.debug {
                "Debug"@
            } else {
                "Release"@
            })
        }),
{
    let r = configure_args_spec(args, build_path, source_path);
    let g: int = if args.cmake_generator is Some { 2 } else { 0 };
    let a: int = if args.cmake_architecture is Some { 2 } else { 0 };
    let n = args.cmake_options@.len() as int;
    let head = seq!["-B"@, build_path, "-S"@, source_path];
    let gen = generator_args(args);
    let arch = architecture_args(args);
    let opts = args.cmake_options@.map_values(|o: String| "-D"@ + o@);
    let tail = seq!["-DCMAKE_BUILD_TYPE="@ + build_type(args.debug)];
    assert(r == head + gen + arch + opts + tail);
    assert(gen.len() == g);
    assert(arch.len() == a);
    assert(opts.len() == n);
    assert forall|k: int| 0 <= k < n implies r[4 + g + a + k] == "-D"@ + args.cmake_options@[k]@ by {
        assert(r[4 + g + a + k] == opts[k]);
    }
    assert(r[4 + g + a + n] == tail[0]);
    if let Some(generator) = args.cmake_generator {
        assert(r[4] == gen[0]);
        assert(r[5] == gen[1]);
    }
    if let Some(architecture) = args.cmake_architecture {
        assert(r[4 + g] == arch[0]);
        assert(r[5 + g] == arch[1]);
    }
}

/// The build arguments: the build directory after `--build`, then `--config`
/// and the build type, `Debug` for a debug build and `Release` otherwise.
pub proof fn lemma_build_args_layout(build_path: Seq<char>, debug: bool)
    ensures
        build_args_spec(build_path, debug).len() == 4,
        build_args_spec(build_path, debug)[0] == "--build"@,
        build_args_spec(build_path, debug)[1] == build_path,
        build_args_spec(build_path, debug)[2] == "--config"@,
        build_args_spec(build_path, debug)[3] == (if debug { "Debug"@ } else { "Release"@ }),
{
}

} // verus!
