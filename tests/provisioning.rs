use jvm_provision::device::{Arch, Device, OS};
use jvm_provision::hash::{hash_file, Certificate, Validator};
use jvm_provision::manifest::{Dependency, Java, Manifest, ManifestError, Platform};
use jvm_provision::provision::{certify_download, plan_dependency, record_download};
use jvm_provision::text::{is_whitespace, replace_all, split_words};
use sha2::{Digest, Sha256};

const ABC_DIGEST: &str = "ba7816bf8f01cfea414140de5dae2223b00361a396177a9cb410ff61f20015ad";
const EMPTY_DIGEST: &str = "e3b0c44298fc1c149afbf4c8996fb92427ae41e4649b934ca495991b7852b855";

fn java(command: &str) -> Java {
    Java {
        jre: "/opt/jre".to_string(),
        url: "http://x/jre.zip".to_string(),
        main: "com.example.Main".to_string(),
        command: command.to_string(),
        args: vec![],
    }
}

fn platform(os: OS, arch: Arch, directory: &str) -> Platform {
    Platform {
        os,
        arch,
        java: java("java -jar $jre/launcher.jar $directory $main"),
        directory: directory.to_string(),
        dependencies: vec![lib()],
    }
}

fn lib() -> Dependency {
    Dependency { name: "lib".to_string(), url: "http://x/lib.jar".to_string() }
}

#[test]
fn device_from_target_names() {
    assert_eq!(
        Device::get_specific("linux", "x86_64"),
        Some(Device { os: OS::Linux, arch: Arch::X86_64 })
    );
    assert_eq!(
        Device::get_specific("windows", "x86"),
        Some(Device { os: OS::Windows, arch: Arch::X86 })
    );
    assert_eq!(
        Device::get_specific("macos", "x86_64"),
        Some(Device { os: OS::Macos, arch: Arch::X86_64 })
    );
    assert_eq!(Device::get_specific("freebsd", "x86_64"), None);
    assert_eq!(Device::get_specific("linux", "aarch64"), None);
    assert_eq!(Device::get_specific("", ""), None);
}

#[test]
fn platform_selection_picks_first_match() {
    let manifest = Manifest {
        platforms: vec![
            platform(OS::Linux, Arch::X86_64, "linux-app"),
            platform(OS::Windows, Arch::X86_64, "windows-app"),
        ],
    };
    let linux = Device { os: OS::Linux, arch: Arch::X86_64 };
    assert_eq!(manifest.get_platform(linux).unwrap().directory, "linux-app");
    let windows = Device { os: OS::Windows, arch: Arch::X86_64 };
    assert_eq!(manifest.get_platform(windows).unwrap().directory, "windows-app");
    let undeclared = Device { os: OS::Macos, arch: Arch::X86 };
    assert!(manifest.get_platform(undeclared).is_none());
}

#[test]
fn platform_selection_duplicates_and_empty() {
    let manifest = Manifest {
        platforms: vec![
            platform(OS::Linux, Arch::X86, "first"),
            platform(OS::Linux, Arch::X86, "second"),
        ],
    };
    let device = Device { os: OS::Linux, arch: Arch::X86 };
    assert_eq!(manifest.get_platform(device).unwrap().directory, "first");
    let empty = Manifest { platforms: vec![] };
    assert!(empty.get_platform(device).is_none());
}

#[test]
fn dependency_path_is_directory_name_jar() {
    let p = platform(OS::Linux, Arch::X86_64, "app");
    assert_eq!(lib().get_path(&p), "app/lib.jar");
    assert_eq!(lib().get_path(&p), lib().get_path(&p));
    let other = Dependency { name: "core-1.0".to_string(), url: String::new() };
    assert_eq!(other.get_path(&platform(OS::Linux, Arch::X86, "/opt/app")), "/opt/app/core-1.0.jar");
}

#[test]
fn urls_are_parsed() {
    assert!(lib().get_url().is_ok());
    let bad = Dependency { name: "bad".to_string(), url: "not a url".to_string() };
    assert_eq!(bad.get_url().unwrap_err(), ManifestError::InvalidUrl);
    let p = platform(OS::Linux, Arch::X86_64, "app");
    assert_eq!(p.get_java_url().unwrap().as_str(), "http://x/jre.zip");
}

#[test]
fn java_folder_and_path() {
    let p = platform(OS::Linux, Arch::X86_64, "app");
    assert_eq!(p.get_java_folder(), "/opt/jre");
    assert_eq!(p.get_java_path(), "/opt/jre");
}

#[test]
fn command_substitution() {
    let mut p = platform(OS::Linux, Arch::X86_64, "/opt/app");
    p.java.jre = "/opt/jre".to_string();
    let command = p.get_command().unwrap();
    assert_eq!(command.program, "java");
    assert_eq!(command.args, vec!["-jar", "/opt/jre/launcher.jar", "/opt/app", "com.example.Main"]);
}

#[test]
fn command_with_extra_whitespace_and_no_args() {
    let mut p = platform(OS::Linux, Arch::X86_64, "d");
    p.java.command = "  run\t$main$main \n".to_string();
    let command = p.get_command().unwrap();
    assert_eq!(command.program, "run");
    assert_eq!(command.args, vec!["com.example.Maincom.example.Main"]);
    p.java.command = "solo".to_string();
    let command = p.get_command().unwrap();
    assert_eq!(command.program, "solo");
    assert!(command.args.is_empty());
}

#[test]
fn empty_command_gives_none() {
    let mut p = platform(OS::Linux, Arch::X86_64, "d");
    p.java.command = String::new();
    assert!(p.get_command().is_none());
    p.java.command = " \t\n".to_string();
    assert!(p.get_command().is_none());
}

#[test]
fn split_words_on_unicode_whitespace() {
    assert_eq!(split_words("  a\tb  c "), vec!["a", "b", "c"]);
    assert_eq!(split_words("x\u{3000}y\u{a0}z"), vec!["x", "y", "z"]);
    assert!(split_words("").is_empty());
    assert!(is_whitespace('\u{2028}'));
    assert!(!is_whitespace('a'));
}

#[test]
fn replace_all_is_left_to_right() {
    assert_eq!(replace_all("aXbX", "X", "yy"), "ayybyy");
    assert_eq!(replace_all("aaa", "aa", "b"), "ba");
    assert_eq!(replace_all("none", "$jre", "j"), "none");
    assert_eq!(replace_all("$jre$jre", "$jre", ""), "");
}

#[test]
fn hash_is_lowercase_hex_sha256() {
    assert_eq!(hash_file(b"abc"), ABC_DIGEST);
    assert_eq!(hash_file(b""), EMPTY_DIGEST);
}

#[test]
fn hash_is_stable_and_distinguishes() {
    let a = hash_file(b"some bytes");
    let b = hash_file(b"some bytes");
    assert_eq!(a, b);
    assert_ne!(hash_file(b"some bytes"), hash_file(b"some bytez"));
    assert_eq!(a.len(), 64);
    assert!(a.chars().all(|c| c.is_ascii_digit() || ('a'..='f').contains(&c)));
}

#[test]
fn validator_add_get_and_overwrite() {
    let mut v = Validator::new();
    assert!(v.get(&"lib".to_string()).is_none());
    v.add("lib".to_string(), Certificate::new("h1".to_string(), &"p1".to_string()));
    v.add("core".to_string(), Certificate::new("h2".to_string(), &"p2".to_string()));
    assert_eq!(v.get(&"lib".to_string()).unwrap().hash, "h1");
    v.add("lib".to_string(), Certificate::new("h3".to_string(), &"p3".to_string()));
    let c = v.get(&"lib".to_string()).unwrap();
    assert_eq!((c.hash.as_str(), c.path.as_str()), ("h3", "p3"));
    assert_eq!(v.get(&"core".to_string()).unwrap().path, "p2");
    assert_eq!(v.certificates().len(), 2);
}

#[test]
fn compare_checks_presence_and_digest() {
    let mut v = Validator::new();
    let name = "lib".to_string();
    let contents = b"abc".to_vec();
    assert!(!v.compare(&name, Some(&contents)));
    v.add(name.clone(), Certificate::new(ABC_DIGEST.to_string(), &"app/lib.jar".to_string()));
    assert!(v.compare(&name, Some(&contents)));
    let altered = b"abd".to_vec();
    assert!(!v.compare(&name, Some(&altered)));
    assert!(!v.compare(&name, None));
    assert!(v.compare_hash(&name, &ABC_DIGEST.to_string()));
    assert!(!v.compare_hash(&name, &EMPTY_DIGEST.to_string()));
    assert!(!v.compare_hash(&"other".to_string(), &ABC_DIGEST.to_string()));
}

#[test]
fn certify_download_hashes_contents() {
    let p = platform(OS::Linux, Arch::X86_64, "app");
    let c = certify_download(&lib(), &p, &b"abc".to_vec());
    assert_eq!(c.hash, ABC_DIGEST);
    assert_eq!(c.path, "app/lib.jar");
}

#[test]
fn one_pass_from_empty_store() {
    let p = platform(OS::Linux, Arch::X86_64, "app");
    let mut v = Validator::new();
    let download = plan_dependency(&v, &lib(), &p, None).unwrap();
    assert_eq!(download.name, "lib");
    assert_eq!(download.url, "http://x/lib.jar");
    assert_eq!(download.path, "app/lib.jar");
    let bytes = b"lib.jar".to_vec();
    record_download(&mut v, &lib(), &p, &bytes);
    let expected = format!("{:x}", Sha256::digest(&bytes));
    let c = v.get(&"lib".to_string()).unwrap();
    assert_eq!(c.hash, expected);
    assert_eq!(c.path, "app/lib.jar");
    assert_eq!(v.certificates().len(), 1);
}

#[test]
fn second_pass_downloads_nothing() {
    let p = platform(OS::Linux, Arch::X86_64, "app");
    let mut v = Validator::new();
    let bytes = b"lib.jar".to_vec();
    assert!(plan_dependency(&v, &lib(), &p, None).is_some());
    record_download(&mut v, &lib(), &p, &bytes);
    assert!(plan_dependency(&v, &lib(), &p, Some(&bytes)).is_none());
    assert!(plan_dependency(&v, &lib(), &p, Some(&b"changed".to_vec())).is_some());
    assert!(plan_dependency(&v, &lib(), &p, None).is_some());
}
