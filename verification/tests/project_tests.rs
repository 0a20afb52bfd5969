use std::str::FromStr;

use ipkg::paths::global;
use ipkg::paths::local;
use ipkg::project::{
    ExecShell, InstallOptions, PackageOptions, PackageTarget, ProjectParams, ProjectTemplateType,
    PurgeOptions, RemoveOptions,
};
use ipkg::utils::generate_email_address;

#[test]
fn shell_parsing_and_display() {
    assert!(matches!(ExecShell::from_str("Bash"), Ok(ExecShell::Bash)));
    assert!(matches!(ExecShell::from_str("rbash"), Ok(ExecShell::RBash)));
    assert!(matches!(ExecShell::from_str("ZSH"), Ok(ExecShell::Zsh)));
    assert_eq!(
        ExecShell::from_str("fish").unwrap_err(),
        "Unavailable Shell: fish"
    );
    assert_eq!(ExecShell::RBash.to_string(), "restricted bash");
    assert_eq!(ExecShell::Csh.to_string(), "csh");
}

#[test]
fn template_parsing_and_display() {
    assert!(matches!(
        ProjectTemplateType::from_str("rust"),
        Ok(ProjectTemplateType::Rust)
    ));
    assert!(matches!(
        ProjectTemplateType::from_str("DEFAULT"),
        Ok(ProjectTemplateType::Default)
    ));
    assert_eq!(
        ProjectTemplateType::from_str("zig").unwrap_err(),
        "Unavailable Template: 'zig'"
    );
}

#[test]
fn package_target_parsing_and_display() {
    assert!(matches!(
        PackageTarget::from_str("source"),
        Ok(PackageTarget::SourceBuild)
    ));
    assert!(matches!(PackageTarget::from_str("min"), Ok(PackageTarget::Min)));
    assert!(matches!(
        PackageTarget::from_str("default"),
        Ok(PackageTarget::Normal)
    ));
    assert_eq!(
        PackageTarget::from_str("huge").unwrap_err(),
        "Invalid Package Target: huge"
    );
    assert_eq!(PackageTarget::SourceBuild.to_string(), "source-build");
}

#[test]
fn option_blocks_render_exactly() {
    assert_eq!(
        InstallOptions::default().to_string(),
        "Install Options:\n  install-shell: restricted bash\n  install-mode: local\n"
    );
    assert_eq!(
        RemoveOptions::default().to_string(),
        "Remove Options:\n  remove-shell: restricted bash\n  remove-mode: local\n"
    );
    assert_eq!(
        PurgeOptions::default().to_string(),
        "Purge Options:\n  purge-shell: restricted bash\n"
    );
    assert_eq!(
        PackageOptions::default().to_string(),
        "Package Options:\n  target: normal\n"
    );
}

#[test]
fn project_params_render() {
    let mut params = ProjectParams::default();
    params.project_name = "demo".to_string();
    params.author.name = "A".to_string();
    params.author.email = "a@h.local".to_string();
    assert_eq!(
        params.to_string(),
        "Project: demo\nTemplate: default\nAuthor: A <a@h.local>"
    );
}

#[test]
fn email_address_shape() {
    assert_eq!(generate_email_address("alice", "box"), "alice@box.local");
}

#[test]
fn catalog_paths() {
    assert_eq!(global::packages_dirpath(), "/etc/ipkg/packages/");
    // Joining an absolute part replaces the base, as path joining does.
    assert_eq!(global::packageslist_filepath(), "/list.yaml");
    assert_eq!(local::ipkg_path("/home/u"), "/home/u/.ipkg");
    assert_eq!(local::packages_dirpath("/home/u"), "/home/u/.ipkg/packages");
    assert_eq!(
        local::packageslist_filepath("/home/u"),
        "/home/u/.ipkg/packages/list.yaml"
    );
    assert_eq!(local::cache_path("/home/u"), "/home/u/.ipkg/caches");
}
