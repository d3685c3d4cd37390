use fmusim::cmake::{cmake_build_args, cmake_configure_args, forward_slashes, BuildArgs};

fn args() -> BuildArgs {
    BuildArgs {
        fmu_file: "BouncingBall.fmu".to_string(),
        project_path: None,
        cmake_generator: None,
        cmake_architecture: None,
        cmake_options: vec![],
        debug: false,
    }
}

#[test]
fn backslashes_become_slashes() {
    assert_eq!(forward_slashes("C:\\temp\\build"), "C:/temp/build");
    assert_eq!(forward_slashes("/tmp/x"), "/tmp/x");
    assert_eq!(forward_slashes(""), "");
}

#[test]
fn configure_release_build() {
    assert_eq!(
        cmake_configure_args(&args(), "p/build", "p"),
        vec!["-B", "p/build", "-S", "p", "-DCMAKE_BUILD_TYPE=Release"]
    );
}

#[test]
fn configure_with_all_options() {
    let mut a = args();
    a.cmake_generator = Some("Ninja".to_string());
    a.cmake_architecture = Some("x64".to_string());
    a.cmake_options = vec!["FOO=1".to_string(), "BAR=2".to_string()];
    a.debug = true;
    assert_eq!(
        cmake_configure_args(&a, "p/build", "p"),
        vec![
            "-B", "p/build", "-S", "p", "-G", "Ninja", "-A", "x64", "-DFOO=1", "-DBAR=2",
            "-DCMAKE_BUILD_TYPE=Debug"
        ]
    );
}

#[test]
fn build_arguments() {
    assert_eq!(cmake_build_args("p/build", false), vec!["--build", "p/build", "--config", "Release"]);
    assert_eq!(cmake_build_args("p/build", true), vec!["--build", "p/build", "--config", "Debug"]);
}
