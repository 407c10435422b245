use sophon_sdk::capability::{
    resolve_capabilities, validate_capability_name, AgentServiceContribution, CapabilityError,
    CapabilityKind, CapabilityLayer, CapabilityOrigin, SkillContribution,
    MAX_CAPABILITY_LAYER_ENTRIES,
};
use sophon_sdk::mcp::McpServerConfig;
use sophon_sdk::session::Error;

fn skills(names: &[&str]) -> CapabilityLayer {
    CapabilityLayer::new().skills(
        names
            .iter()
            .map(|name| SkillContribution::new(name, &format!("/tmp/{name}")))
            .collect(),
    )
}

#[test]
fn session_layer_masks_only_same_named_general_capabilities() {
    let general = skills(&["oracle", "general"]);
    let session = skills(&["oracle"]);
    let resolved = resolve_capabilities(&general, &session);
    assert_eq!(
        resolved.resolution.origin(CapabilityKind::Skill, "oracle"),
        Some(CapabilityOrigin::Session)
    );
    assert_eq!(
        resolved.resolution.origin(CapabilityKind::Skill, "general"),
        Some(CapabilityOrigin::General)
    );
    assert!(resolved.resolution.is_masked(CapabilityKind::Skill, "oracle"));
    assert!(!resolved.resolution.is_masked(CapabilityKind::Skill, "general"));

    let unmasked = resolve_capabilities(&general, &CapabilityLayer::new());
    assert_eq!(
        unmasked.resolution.origin(CapabilityKind::Skill, "oracle"),
        Some(CapabilityOrigin::General)
    );
    assert!(unmasked.resolution.masked.is_empty());
}

#[test]
fn validation_fails_closed_on_duplicates_bounds_and_names() {
    assert!(matches!(
        skills(&["alpha", "alpha"]).validate(),
        Err(CapabilityError::Duplicate { kind: CapabilityKind::Skill, .. })
    ));
    let oversized: Vec<SkillContribution> = (0..=MAX_CAPABILITY_LAYER_ENTRIES)
        .map(|index| SkillContribution::new(&format!("s{index}"), &format!("/tmp/s{index}")))
        .collect();
    assert!(matches!(
        CapabilityLayer::new().skills(oversized).validate(),
        Err(CapabilityError::TooManyEntries { .. })
    ));
    assert!(matches!(
        CapabilityLayer::new().skill(SkillContribution::new("-bad", "/tmp/bad")).validate(),
        Err(CapabilityError::InvalidName(_))
    ));
    assert!(matches!(
        CapabilityLayer::new().skill(SkillContribution::new("relative", "tmp/bad")).validate(),
        Err(CapabilityError::RelativeSkillRoot { .. })
    ));
    assert!(matches!(
        CapabilityLayer::new()
            .agent_service(AgentServiceContribution::new("explore", " "))
            .validate(),
        Err(CapabilityError::MissingModel { .. })
    ));
    assert!(skills(&["alpha", "beta"]).validate().is_ok());
}

#[test]
fn names_and_roots_follow_the_resolution() {
    let general = skills(&["b", "a"]).agent_service(AgentServiceContribution::new("plan", "m-1"));
    let session = skills(&["a"])
        .agent_service(AgentServiceContribution::new("plan", "m-2"))
        .mcp_service(McpServerConfig::Http {
            name: "tools".to_string(),
            url: "http://localhost".to_string(),
            headers: vec![],
        });
    let resolved = resolve_capabilities(&general, &session);
    let mut names = resolved.resolution.names(CapabilityKind::Skill);
    names.sort();
    assert_eq!(names, vec!["a".to_string(), "b".to_string()]);
    assert_eq!(resolved.agent_services.get("plan"), Some(&"m-2".to_string()));
    assert!(resolved.resolution.is_masked(CapabilityKind::AgentService, "plan"));
    assert_eq!(
        resolved.resolution.origin(CapabilityKind::McpService, "tools"),
        Some(CapabilityOrigin::Session)
    );
    assert!(resolved.session_meta(&vec!["/base".to_string()]).is_some());
    let nothing = resolve_capabilities(&CapabilityLayer::new(), &CapabilityLayer::new());
    assert!(nothing.session_meta(&vec![]).is_none());
    assert!(CapabilityLayer::new().is_empty());
}

#[test]
fn names_are_short_plain_identifiers() {
    assert!(validate_capability_name("a-b_c.d1").is_ok());
    assert!(validate_capability_name("").is_err());
    assert!(validate_capability_name(&"x".repeat(129)).is_err());
    assert!(validate_capability_name("white space").is_err());
    assert!(matches!(
        CapabilityError::RestrictedProfile.into_error(),
        Error::InvalidConfig(_)
    ));
}

#[test]
fn what_a_session_does_not_name_keeps_its_origin_and_value() {
    let mount = |url: &str| McpServerConfig::Http {
        name: "tools".to_string(),
        url: url.to_string(),
        headers: vec![],
    };
    let general = skills(&["a", "b"])
        .mcp_service(mount("http://general"))
        .agent_service(AgentServiceContribution::new("plan", "m-1"))
        .agent_service(AgentServiceContribution::new("act", "m-2"));
    let alone = resolve_capabilities(&general, &CapabilityLayer::new());
    assert_eq!(alone.skill_roots, vec!["/tmp/a".to_string(), "/tmp/b".to_string()]);
    assert_eq!(alone.mcp_services, vec![mount("http://general")]);
    assert_eq!(alone.agent_services.get("plan"), Some(&"m-1".to_string()));
    assert!(!alone.resolution.is_masked(CapabilityKind::Skill, "a"));
    let session = skills(&["b"]).agent_service(AgentServiceContribution::new("plan", "m-3"));
    let seen = resolve_capabilities(&general, &session);
    assert_eq!(seen.skill_roots, vec!["/tmp/a".to_string(), "/tmp/b".to_string()]);
    assert_eq!(seen.mcp_services, vec![mount("http://general")]);
    assert_eq!(seen.agent_services.get("plan"), Some(&"m-3".to_string()));
    assert_eq!(seen.agent_services.get("act"), Some(&"m-2".to_string()));
    for (kind, name) in [
        (CapabilityKind::Skill, "a"),
        (CapabilityKind::McpService, "tools"),
        (CapabilityKind::AgentService, "act"),
    ] {
        assert_eq!(seen.resolution.origin(kind, name), alone.resolution.origin(kind, name));
        assert_eq!(seen.resolution.origin(kind, name), Some(CapabilityOrigin::General));
    }
}
