use restore_file_info::cli::{
    default_registry_dir, default_target_dir, CargoCleanRegistry, CargoCleanTargetDir, Commands,
    Dump,
};

#[test]
fn default_target_dir_is_under_the_root() {
    assert_eq!(
        default_target_dir(&String::from("/work/project")),
        "/work/project/target"
    );
}

#[test]
fn default_registry_dir_is_the_platform_standard_path() {
    assert_eq!(default_registry_dir(), "/root/.cargo/registry");
}

#[test]
fn commands_carry_their_arguments() {
    let c = Commands::Dump(Dump { gitignore: true });
    match c {
        Commands::Dump(d) => assert!(d.gitignore),
        _ => panic!("wrong variant"),
    }
    let t = Commands::CargoCleanTargetDir(CargoCleanTargetDir {
        target_dir: Some(String::from("/tmp/t")),
    });
    match t {
        Commands::CargoCleanTargetDir(a) => {
            assert_eq!(a.target_dir, Some(String::from("/tmp/t")))
        }
        _ => panic!("wrong variant"),
    }
    let r = Commands::CargoCleanRegistry(CargoCleanRegistry { registry_dir: None });
    match r {
        Commands::CargoCleanRegistry(a) => assert_eq!(a.registry_dir, None),
        Commands::Restore => panic!("wrong variant"),
        _ => panic!("wrong variant"),
    }
}
