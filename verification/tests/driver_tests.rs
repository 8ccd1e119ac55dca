use limpid::assemble::AnalysisError;
use limpid::catalog::generate_mock_catalog;
use limpid::catalog::Gender;
use limpid::catalog::Theme;
use limpid::cliopts::parse_args;
use limpid::driver::driver_finish;
use limpid::driver::driver_step;
use limpid::driver::select_binary;
use limpid::driver::ArtifactKind;
use limpid::driver::BuildEvent;
use limpid::driver::DriverState;
use limpid::gitplan::rev_parse_head_command;
use limpid::gitplan::rev_parse_toplevel_command;
use limpid::gitplan::worktree_add_command;
use limpid::gitplan::worktree_prune_command;

fn args(list: &[&str]) -> Vec<String> {
    list.iter().map(|a| a.to_string()).collect()
}

#[test]
fn the_driver_accumulates_artifacts_and_timings() {
    let s = DriverState::new();
    let s = driver_step(
        s,
        BuildEvent::CompilerArtifact {
            kind: ArtifactKind::Library,
            name: "serde".to_string(),
            path: "/t/libserde.rlib".to_string(),
        },
    );
    let s = driver_step(
        s,
        BuildEvent::TimingInfo { crate_name: "serde".to_string(), duration_ms: 1500 },
    );
    let s = driver_step(s, BuildEvent::BuildScriptExecuted);
    let s = driver_step(
        s,
        BuildEvent::CompilerArtifact {
            kind: ArtifactKind::Binary,
            name: "sample".to_string(),
            path: "/t/sample".to_string(),
        },
    );
    assert_eq!(s.artifacts.len(), 2);
    assert_eq!(s.timings.len(), 1);
    assert_eq!(s.timings[0].duration_ms, 1500);
    assert!(s.failure.is_none());
    let ix = select_binary(&s.artifacts, "sample").unwrap();
    assert_eq!(ix, 1);
    assert!(select_binary(&s.artifacts, "missing").is_none());
    let (artifacts, timings) = driver_finish(s, true, String::new()).ok().unwrap();
    assert_eq!(artifacts.len(), 2);
    assert_eq!(timings.len(), 1);
}

#[test]
fn the_first_fatal_diagnostic_aborts_the_build() {
    let s = DriverState::new();
    let s = driver_step(
        s,
        BuildEvent::CompilerMessage { error: false, text: "warning: unused".to_string() },
    );
    assert!(s.failure.is_none());
    let s = driver_step(
        s,
        BuildEvent::CompilerMessage { error: true, text: "first error".to_string() },
    );
    let s = driver_step(
        s,
        BuildEvent::CompilerMessage { error: true, text: "second error".to_string() },
    );
    assert_eq!(s.failure.as_deref(), Some("first error"));
    let r = driver_finish(s, true, String::new());
    assert!(matches!(r, Err(AnalysisError::BuildFailed { .. })));
}

#[test]
fn a_failing_exit_is_a_build_failure() {
    let s = DriverState::new();
    let r = driver_finish(s, false, "linker exploded".to_string());
    match r {
        Err(AnalysisError::BuildFailed { stderr }) => assert_eq!(stderr, "linker exploded"),
        _ => panic!("expected a build failure"),
    }
}

#[test]
fn arguments_parse_into_a_configuration() {
    let c = parse_args(&args(&[])).ok().unwrap();
    assert!(c.markdown_output.is_none());
    assert!(!c.verbose);
    assert!(!c.help);

    let c = parse_args(&args(&["--markdown", "report.md", "-v"])).ok().unwrap();
    assert_eq!(c.markdown_output.as_deref(), Some("report.md"));
    assert!(c.verbose);

    let c = parse_args(&args(&["-h"])).ok().unwrap();
    assert!(c.help);

    let c = parse_args(&args(&["--markdown=out.md"])).ok().unwrap();
    assert_eq!(c.markdown_output.as_deref(), Some("out.md"));
    let c = parse_args(&args(&["-m=out.md"])).ok().unwrap();
    assert_eq!(c.markdown_output.as_deref(), Some("out.md"));

    assert!(parse_args(&args(&["--markdown"])).is_err());
    assert!(parse_args(&args(&["--unknown"])).is_err());
}

#[test]
fn git_commands_are_planned_exactly() {
    let c = worktree_add_command("/repo", "/tmp/wt", "origin/main");
    assert_eq!(c.program, "git");
    assert_eq!(c.args, vec!["worktree", "add", "--force", "--detach", "/tmp/wt", "origin/main"]);
    assert_eq!(c.cwd, "/repo");

    let c = worktree_prune_command("/repo");
    assert_eq!(c.args, vec!["worktree", "prune"]);

    let c = rev_parse_head_command("/repo");
    assert_eq!(c.args, vec!["rev-parse", "HEAD"]);

    let c = rev_parse_toplevel_command("/somewhere");
    assert_eq!(c.args, vec!["rev-parse", "--show-toplevel"]);
    assert_eq!(c.cwd, "/somewhere");
}

#[test]
fn the_mock_catalog_has_its_documented_shape() {
    let c = generate_mock_catalog();
    assert_eq!(c.metadata.version, "1.0.1!");
    assert_eq!(c.metadata.region, "US");
    assert_eq!(c.businesses.len(), 1);
    let b = &c.businesses[0];
    assert_eq!(b.name, "Awesome Business");
    assert_eq!(b.owner.ownership_basis_points, 10000);
    assert_eq!(b.users.len(), 2);
    assert_eq!(b.branches.len(), 1);
    assert_eq!(b.products.len(), 3);
    let branch = &b.branches[0];
    assert!(branch.open);
    assert_eq!(branch.name, "Central Branch");
    assert_eq!(branch.inventory.len(), 3);
    for slot in &branch.inventory {
        assert_eq!(slot.stock, 50);
        assert_eq!(slot.location_code.as_deref(), Some("A-01"));
    }
    for (k, p) in b.products.iter().enumerate() {
        assert_eq!(p.price_cents, 1000 + 100 * (k as u64 + 1));
        assert!(p.available);
        assert_eq!(p.currency, "USD");
        assert_eq!(p.reviews.len(), 1);
        assert_eq!(p.reviews[0].rating, 4 + ((k as u8 + 1) % 2));
        assert_eq!(p.categories.len(), 1);
        // the branch stocks a field-for-field copy of the same product
        let stocked = &branch.inventory[k].product;
        assert_eq!(stocked.id.value, p.id.value);
        assert_eq!(stocked.name, p.name);
        assert_eq!(stocked.price_cents, p.price_cents);
        assert_eq!(stocked.reviews.len(), p.reviews.len());
        assert_eq!(stocked.reviews[0].id.value, p.reviews[0].id.value);
        assert_eq!(stocked.categories[0].id.value, p.categories[0].id.value);
    }
    // users alternate: odd indices read as female with the dark theme
    assert!(matches!(b.users[0].user.profile.gender, Gender::Female));
    assert!(matches!(b.users[0].user.settings.theme, Theme::Dark));
    assert!(matches!(b.users[1].user.profile.gender, Gender::Male));
    assert!(matches!(b.users[1].user.settings.theme, Theme::Light));
    // the category chains deepen with the product index and end at the root
    let mut depth = 0;
    let mut cursor = &b.products[2].categories[0];
    while let Some(p) = &cursor.parent {
        depth += 1;
        cursor = p;
    }
    assert_eq!(depth, 3);
    assert_eq!(cursor.name, "Root Category");
    assert!(cursor.parent.is_none());
}
