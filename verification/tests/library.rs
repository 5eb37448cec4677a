use rolegate::authorizer::AuthorizerError;
use rolegate::authorizer::Permission;
use rolegate::entity::Entity;
use rolegate::entity::EntityId;
use rolegate::entity::Value;
use rolegate::entity::is_descendant;
use rolegate::evaluator::ResourceAuthorizationResult;
use rolegate::evaluator::decide;
use rolegate::evaluator::ResidualPolicy;
use rolegate::expr::Bindings;
use rolegate::expr::Expr;
use rolegate::filter::MappingError;
use rolegate::filter::Registry;
use rolegate::filter::RegistryEntry;
use rolegate::filter::compile;
use rolegate::filter::registry_covers;
use rolegate::policy::ActionScope;
use rolegate::policy::Effect;
use rolegate::policy::Policy;
use rolegate::policy::PolicySet;
use rolegate::policy::ScopePattern;
use rolegate::policy::Schema;
use rolegate::token::TokenClaims;
use rolegate::token::TokenError;
use rolegate::token::TokenService;
use rolegate::token::build_principal;

fn id(ty: &str, eid: &str) -> EntityId {
    EntityId { ty: ty.to_string(), eid: eid.to_string() }
}

fn action_list(names: &[&str]) -> ActionScope {
    ActionScope::OneOf(names.iter().map(|n| id("Action", n)).collect())
}

fn ann(key: &str, value: &str) -> (String, String) {
    (key.to_string(), value.to_string())
}

fn test_schema() -> Schema {
    Schema {
        entity_types: vec![
            "User".to_string(),
            "Role".to_string(),
            "Group".to_string(),
            "Project".to_string(),
        ],
        actions: vec![
            "CreateParty".to_string(),
            "CreateRole".to_string(),
            "AssignRole".to_string(),
            "RemoveRole".to_string(),
            "CreateProject".to_string(),
            "ListProject".to_string(),
            "ViewProject".to_string(),
            "AuditProject".to_string(),
            "AssignPartyrole".to_string(),
            "ShareProject".to_string(),
        ],
    }
}

fn admin_policy() -> Policy {
    Policy {
        effect: Effect::Permit,
        principal_scope: ScopePattern::MemberOf(id("Role", "Administrator")),
        action_scope: action_list(&["CreateParty", "CreateRole", "AssignRole", "RemoveRole"]),
        resource_scope: ScopePattern::Any,
        condition: None,
        annotations: vec![ann("id", "AdministratorPolicy")],
    }
}

fn projectlead_policy() -> Policy {
    Policy {
        effect: Effect::Permit,
        principal_scope: ScopePattern::MemberOf(id("Role", "ProjectLead")),
        action_scope: action_list(&["CreateProject", "ListProject"]),
        resource_scope: ScopePattern::MemberOf(id("Group", "Projects")),
        condition: None,
        annotations: vec![ann("id", "ProjectLeadPolicy")],
    }
}

fn projectlead_project_policy() -> Policy {
    Policy {
        effect: Effect::Permit,
        principal_scope: ScopePattern::Any,
        action_scope: action_list(
            &["ViewProject", "AuditProject", "AssignPartyrole", "ShareProject"],
        ),
        resource_scope: ScopePattern::Any,
        condition: Some(Expr::Eq(
            Box::new(Expr::PrincipalRef),
            Box::new(Expr::ResourceAttr("owner".to_string())),
        )),
        annotations: vec![ann("id", "ProjectLeadPolicy.Project")],
    }
}

fn developer_policy() -> Policy {
    Policy {
        effect: Effect::Permit,
        principal_scope: ScopePattern::MemberOf(id("Role", "Developer")),
        action_scope: action_list(&["ListProject", "ViewProject"]),
        resource_scope: ScopePattern::Any,
        condition: Some(Expr::In(
            Box::new(Expr::PrincipalRef),
            Box::new(Expr::ResourceAttr("assigned_to".to_string())),
        )),
        annotations: vec![ann("id", "DeveloperPolicy")],
    }
}

fn claims(user_id: i32, roles: &[&str]) -> TokenClaims {
    TokenClaims { id: user_id, roles: roles.iter().map(|r| r.to_string()).collect() }
}

fn evaluate(
    token_claims: TokenClaims,
    policies: Vec<Policy>,
    action: &str,
) -> Result<ResourceAuthorizationResult, AuthorizerError> {
    let permission =
        Permission::new(PolicySet { policies }, test_schema()).expect("policies fit the schema");
    permission.get_policies(&token_claims, &id("Action", action))
}

fn project_registry() -> Registry {
    Registry {
        entries: vec![
            RegistryEntry {
                policy_id: "ProjectLeadPolicy.Project".to_string(),
                param: "owned_by_filter".to_string(),
                fragment: "projects.owned_by = :principal_id".to_string(),
            },
            RegistryEntry {
                policy_id: "DeveloperPolicy".to_string(),
                param: "assigned_only".to_string(),
                fragment: "party_role.party_id = :principal_id".to_string(),
            },
        ],
    }
}

#[test]
fn admin_policy_is_denied() {
    let token_claims = claims(1, &["Administrator"]);
    let ans = evaluate(token_claims, vec![admin_policy()], "ViewProject");
    assert!(ans.is_ok(), "ans is ok");
    assert_eq!(&ans.unwrap(), &ResourceAuthorizationResult::Deny, "Expected Ok(Deny)");
}

#[test]
fn projectlead_policy_is_denied() {
    let token_claims = claims(1, &["ProjectLead"]);
    let ans = evaluate(token_claims, vec![projectlead_policy()], "ViewProject");
    assert!(ans.is_ok(), "ans is ok");
    assert_eq!(&ans.unwrap(), &ResourceAuthorizationResult::Deny, "Expected Ok(Deny)");
}

#[test]
fn projectlead_project_policy_is_residual() {
    let expected = Expr::Eq(
        Box::new(Expr::Lit(Value::Ent(id("User", "1")))),
        Box::new(Expr::ResourceAttr("owner".to_string())),
    );

    let token_claims = claims(1, &["ProjectLead"]);
    let ans = evaluate(token_claims, vec![projectlead_project_policy()], "ViewProject");
    assert!(ans.is_ok(), "ans is ok");

    match ans.unwrap() {
        ResourceAuthorizationResult::Allow => assert!(false),
        ResourceAuthorizationResult::Deny => assert!(false),
        ResourceAuthorizationResult::Residual(v) => {
            assert_eq!(v.len(), 1);
            let pid = v[0].annotation(&"id".to_string());
            assert_eq!(pid, Some("ProjectLeadPolicy.Project".to_string()));
            assert_eq!(v[0].condition, expected);
        },
    }
}

#[test]
fn all_policies_is_residual() {
    let token_claims = claims(1, &["ProjectLead", "Developer"]);

    let all_policies = vec![
        admin_policy(),
        projectlead_project_policy(),
        projectlead_policy(),
        developer_policy(),
    ];

    let ans = evaluate(token_claims, all_policies, "ViewProject");
    match ans {
        Err(_) => assert!(false),
        Ok(ResourceAuthorizationResult::Allow) => assert!(false),
        Ok(ResourceAuthorizationResult::Deny) => assert!(false),
        Ok(ResourceAuthorizationResult::Residual(v)) => {
            let mut policies: Vec<String> =
                v.iter().filter_map(|p| p.annotation(&"id".to_string())).collect();
            policies.sort();
            assert_eq!(policies, vec!["DeveloperPolicy", "ProjectLeadPolicy.Project"]);
        },
    }
}

#[test]
fn residual_compiles_to_owned_by_filter() {
    let token_claims = claims(1, &["ProjectLead"]);
    let ans = evaluate(token_claims, vec![projectlead_project_policy()], "ViewProject").unwrap();
    let (filter, errors) = compile(&ans, &"1".to_string(), &project_registry());
    assert!(!filter.always_allow);
    assert!(!filter.always_deny);
    assert_eq!(filter.active_params.len(), 1);
    assert_eq!(filter.active_params[0].name, "owned_by_filter");
    assert_eq!(filter.active_params[0].bound_value, "1");
    assert!(errors.is_empty());
}

#[test]
fn developer_residual_compiles_to_assignment_filter() {
    let token_claims = claims(4, &["Developer"]);
    let ans = evaluate(token_claims, vec![developer_policy()], "ViewProject").unwrap();
    let (filter, errors) = compile(&ans, &"4".to_string(), &project_registry());
    assert_eq!(filter.active_params.len(), 1);
    assert_eq!(filter.active_params[0].name, "assigned_only");
    assert_eq!(filter.active_params[0].bound_value, "4");
    assert!(errors.is_empty());
}

#[test]
fn deny_compiles_to_empty_row_set() {
    let token_claims = claims(2, &["Administrator"]);
    let ans = evaluate(token_claims, vec![admin_policy()], "ViewProject").unwrap();
    let (filter, errors) = compile(&ans, &"2".to_string(), &project_registry());
    assert!(!filter.always_allow);
    assert!(filter.always_deny);
    assert!(filter.active_params.is_empty());
    assert!(errors.is_empty());
}

#[test]
fn allow_compiles_to_unrestricted() {
    let decision = ResourceAuthorizationResult::Allow;
    let (filter, errors) = compile(&decision, &"1".to_string(), &project_registry());
    assert!(filter.always_allow);
    assert!(!filter.always_deny);
    assert!(filter.active_params.is_empty());
    assert!(errors.is_empty());
}

#[test]
fn unregistered_residual_id_fails_closed() {
    let decision = ResourceAuthorizationResult::Residual(vec![ResidualPolicy {
        annotations: vec![ann("id", "GhostPolicy")],
        condition: Expr::ResourceAttr("owner".to_string()),
    }]);
    let (filter, errors) = compile(&decision, &"1".to_string(), &project_registry());
    assert!(filter.active_params.is_empty());
    assert!(!filter.always_allow);
    assert_eq!(errors, vec![MappingError::UnregisteredPolicyId("GhostPolicy".to_string())]);
}

#[test]
fn residual_without_id_annotation_is_reported() {
    let decision = ResourceAuthorizationResult::Residual(vec![ResidualPolicy {
        annotations: vec![ann("note", "unlabelled")],
        condition: Expr::ResourceAttr("owner".to_string()),
    }]);
    let (filter, errors) = compile(&decision, &"1".to_string(), &project_registry());
    assert!(filter.active_params.is_empty());
    assert_eq!(errors, vec![MappingError::MissingIdAnnotation]);
}

#[test]
fn registry_covers_flags_missing_entries() {
    let covered = PolicySet { policies: vec![projectlead_project_policy(), developer_policy()] };
    assert!(registry_covers(&project_registry(), &covered));
    let drifted = PolicySet { policies: vec![admin_policy()] };
    assert!(!registry_covers(&project_registry(), &drifted));
}

fn project_owned_by(owner: &str) -> Entity {
    Entity {
        uid: id("Project", "1"),
        attrs: vec![("owner".to_string(), Value::Ent(id("User", owner)))],
        parents: vec![],
    }
}

#[test]
fn owner_is_authorized_for_own_project() {
    let permission = Permission::new(
        PolicySet { policies: vec![projectlead_project_policy()] },
        test_schema(),
    )
    .unwrap();
    let token_claims = claims(1, &["ProjectLead"]);
    let ans = permission.is_authorized(
        &token_claims,
        &id("Action", "ViewProject"),
        &project_owned_by("1"),
    );
    assert_eq!(ans, Ok(true));
}

#[test]
fn stranger_is_denied_on_foreign_project() {
    let permission = Permission::new(
        PolicySet { policies: vec![projectlead_project_policy()] },
        test_schema(),
    )
    .unwrap();
    let token_claims = claims(1, &["ProjectLead"]);
    let ans = permission.is_authorized(
        &token_claims,
        &id("Action", "ViewProject"),
        &project_owned_by("2"),
    );
    assert_eq!(ans, Ok(false));
}

#[test]
fn forbid_overrides_permit() {
    let permit_all = Policy {
        effect: Effect::Permit,
        principal_scope: ScopePattern::Any,
        action_scope: ActionScope::AnyAction,
        resource_scope: ScopePattern::Any,
        condition: None,
        annotations: vec![ann("id", "PermitEverything")],
    };
    let forbid_all = Policy {
        effect: Effect::Forbid,
        principal_scope: ScopePattern::Any,
        action_scope: ActionScope::AnyAction,
        resource_scope: ScopePattern::Any,
        condition: None,
        annotations: vec![ann("id", "ForbidEverything")],
    };
    let permission = Permission::new(
        PolicySet { policies: vec![permit_all, forbid_all] },
        test_schema(),
    )
    .unwrap();
    let token_claims = claims(1, &["ProjectLead"]);
    let ans = permission.is_authorized(
        &token_claims,
        &id("Action", "ViewProject"),
        &project_owned_by("1"),
    );
    assert_eq!(ans, Ok(false));
}

#[test]
fn empty_policy_set_denies_everything() {
    let permission = Permission::new(PolicySet { policies: vec![] }, test_schema()).unwrap();
    let token_claims = claims(1, &["ProjectLead"]);
    let full = permission.is_authorized(
        &token_claims,
        &id("Action", "ViewProject"),
        &project_owned_by("1"),
    );
    assert_eq!(full, Ok(false));
    let partial = permission.get_policies(&claims(1, &["ProjectLead"]), &id("Action", "ViewProject"));
    assert_eq!(partial, Ok(ResourceAuthorizationResult::Deny));
}

#[test]
fn two_hop_group_membership_grants() {
    // principal -> Role::R1 -> Group::G, policy scoped to Group::G
    let principal = Entity {
        uid: id("User", "9"),
        attrs: vec![],
        parents: vec![id("Role", "R1")],
    };
    let role = Entity {
        uid: id("Role", "R1"),
        attrs: vec![],
        parents: vec![id("Group", "G")],
    };
    let store = vec![
        principal.duplicate(),
        role,
        Entity { uid: id("Project", "1"), attrs: vec![], parents: vec![] },
    ];
    let policy = Policy {
        effect: Effect::Permit,
        principal_scope: ScopePattern::MemberOf(id("Group", "G")),
        action_scope: ActionScope::AnyAction,
        resource_scope: ScopePattern::Any,
        condition: None,
        annotations: vec![ann("id", "GroupPolicy")],
    };
    let b = Bindings {
        principal,
        resource: Some(Entity { uid: id("Project", "1"), attrs: vec![], parents: vec![] }),
        context: vec![],
    };
    let allow = decide(
        &PolicySet { policies: vec![policy] },
        &store,
        &id("Action", "ViewProject"),
        &b,
    );
    assert!(allow);
}

#[test]
fn cyclic_membership_graph_terminates() {
    let a = Entity { uid: id("Role", "A"), attrs: vec![], parents: vec![id("Role", "B")] };
    let bb = Entity { uid: id("Role", "B"), attrs: vec![], parents: vec![id("Role", "A")] };
    let store = vec![a, bb];
    assert!(is_descendant(&store, &id("Role", "A"), &id("Role", "B")));
    assert!(is_descendant(&store, &id("Role", "B"), &id("Role", "A")));
    assert!(!is_descendant(&store, &id("Role", "A"), &id("Role", "C")));
}

#[test]
fn negative_principal_id_renders_with_sign() {
    let token_claims = claims(-7, &["ProjectLead"]);
    let user = token_claims.user().unwrap();
    assert_eq!(user.uid.eid, "-7");
    assert_eq!(user.uid.ty, "User");
}

#[test]
fn duplicate_roles_collapse_to_one_edge() {
    let token_claims = claims(1, &["ProjectLead", "Developer", "ProjectLead"]);
    let user = token_claims.user().unwrap();
    assert_eq!(user.parents.len(), 2);
    assert_eq!(user.parents[0].eid, "ProjectLead");
    assert_eq!(user.parents[1].eid, "Developer");
}

#[test]
fn empty_role_name_is_rejected() {
    let token_claims = claims(1, &["ProjectLead", ""]);
    assert!(token_claims.user().is_err());
    let permission =
        Permission::new(PolicySet { policies: vec![] }, test_schema()).unwrap();
    let ans = permission.get_policies(&token_claims, &id("Action", "ViewProject"));
    assert!(matches!(ans, Err(AuthorizerError::TokenError(TokenError::EntityConstruction(_)))));
}

#[test]
fn undeclared_action_is_rejected() {
    let permission = Permission::new(PolicySet { policies: vec![] }, test_schema()).unwrap();
    let token_claims = claims(1, &["ProjectLead"]);
    let ans = permission.get_policies(&token_claims, &id("Action", "LaunchRocket"));
    assert!(matches!(ans, Err(AuthorizerError::RequestValidationError(_))));
}

#[test]
fn undeclared_resource_type_is_rejected() {
    let permission = Permission::new(PolicySet { policies: vec![] }, test_schema()).unwrap();
    let token_claims = claims(1, &["ProjectLead"]);
    let resource = Entity { uid: id("Spaceship", "1"), attrs: vec![], parents: vec![] };
    let ans = permission.is_authorized(&token_claims, &id("Action", "ViewProject"), &resource);
    assert!(matches!(ans, Err(AuthorizerError::RequestValidationError(_))));
}

#[test]
fn policy_with_undeclared_scope_type_fails_load() {
    let rogue = Policy {
        effect: Effect::Permit,
        principal_scope: ScopePattern::MemberOf(id("Starfleet", "Command")),
        action_scope: ActionScope::AnyAction,
        resource_scope: ScopePattern::Any,
        condition: None,
        annotations: vec![ann("id", "RoguePolicy")],
    };
    let loaded = Permission::new(PolicySet { policies: vec![rogue] }, test_schema());
    assert!(loaded.is_err());
}

#[test]
fn assigned_developer_is_authorized() {
    let permission =
        Permission::new(PolicySet { policies: vec![developer_policy()] }, test_schema()).unwrap();
    let token_claims = claims(4, &["Developer"]);
    let assigned = Entity {
        uid: id("Project", "2"),
        attrs: vec![(
            "assigned_to".to_string(),
            Value::EntSet(vec![id("User", "3"), id("User", "4")]),
        )],
        parents: vec![],
    };
    assert_eq!(
        permission.is_authorized(&token_claims, &id("Action", "ViewProject"), &assigned),
        Ok(true)
    );
    let unassigned = Entity {
        uid: id("Project", "3"),
        attrs: vec![("assigned_to".to_string(), Value::EntSet(vec![id("User", "3")]))],
        parents: vec![],
    };
    assert_eq!(
        permission.is_authorized(&token_claims, &id("Action", "ViewProject"), &unassigned),
        Ok(false)
    );
}

#[test]
fn condition_failure_denies_request() {
    // The policy's condition reads an attribute the resource does not
    // carry: the evaluation failure denies the request, even though an
    // unconditional Permit also matches.
    let broken = Policy {
        effect: Effect::Permit,
        principal_scope: ScopePattern::Any,
        action_scope: ActionScope::AnyAction,
        resource_scope: ScopePattern::Any,
        condition: Some(Expr::Eq(
            Box::new(Expr::ResourceAttr("missing".to_string())),
            Box::new(Expr::Lit(Value::Int(1))),
        )),
        annotations: vec![ann("id", "BrokenPolicy")],
    };
    let permit_all = Policy {
        effect: Effect::Permit,
        principal_scope: ScopePattern::Any,
        action_scope: ActionScope::AnyAction,
        resource_scope: ScopePattern::Any,
        condition: None,
        annotations: vec![ann("id", "PermitEverything")],
    };
    let permission = Permission::new(
        PolicySet { policies: vec![broken, permit_all] },
        test_schema(),
    )
    .unwrap();
    let token_claims = claims(1, &["ProjectLead"]);
    let ans = permission.is_authorized(
        &token_claims,
        &id("Action", "ViewProject"),
        &Entity { uid: id("Project", "1"), attrs: vec![], parents: vec![] },
    );
    assert_eq!(ans, Ok(false));
}

#[test]
fn context_attribute_decides_condition() {
    let gated = Policy {
        effect: Effect::Permit,
        principal_scope: ScopePattern::Any,
        action_scope: ActionScope::AnyAction,
        resource_scope: ScopePattern::Any,
        condition: Some(Expr::Eq(
            Box::new(Expr::ContextAttr("elevated".to_string())),
            Box::new(Expr::Lit(Value::Bool(true))),
        )),
        annotations: vec![ann("id", "ElevatedPolicy")],
    };
    let store = vec![Entity { uid: id("User", "1"), attrs: vec![], parents: vec![] }];
    let resource = Entity { uid: id("Project", "1"), attrs: vec![], parents: vec![] };
    let principal = Entity { uid: id("User", "1"), attrs: vec![], parents: vec![] };
    let b = Bindings {
        principal,
        resource: Some(resource),
        context: vec![("elevated".to_string(), Value::Bool(true))],
    };
    let allow = decide(
        &PolicySet { policies: vec![gated] },
        &store,
        &id("Action", "ViewProject"),
        &b,
    );
    assert!(allow);
}

#[test]
fn partial_then_full_agree_on_concrete_resource() {
    // The same request decided in two steps: partially (resource unknown,
    // giving a residual condition) and fully; resolving the residual
    // against the concrete resource matches the full decision.
    let token_claims = claims(1, &["ProjectLead"]);
    let partial = evaluate(
        token_claims,
        vec![projectlead_project_policy()],
        "ViewProject",
    )
    .unwrap();
    let residuals = match partial {
        ResourceAuthorizationResult::Residual(v) => v,
        _ => panic!("expected a residual decision"),
    };
    let permission = Permission::new(
        PolicySet { policies: vec![projectlead_project_policy()] },
        test_schema(),
    )
    .unwrap();
    let owned = project_owned_by("1");
    let full_owned =
        permission.is_authorized(&claims(1, &["ProjectLead"]), &id("Action", "ViewProject"), &owned);
    let foreign = project_owned_by("2");
    let full_foreign = permission.is_authorized(
        &claims(1, &["ProjectLead"]),
        &id("Action", "ViewProject"),
        &foreign,
    );
    // Resolve the lone residual condition against both resources by a
    // full evaluation of a one-policy set built from it.
    let resolved = |resource: Entity| -> bool {
        let one = Policy {
            effect: Effect::Permit,
            principal_scope: ScopePattern::Any,
            action_scope: ActionScope::AnyAction,
            resource_scope: ScopePattern::Any,
            condition: Some(clone_expr(&residuals[0].condition)),
            annotations: vec![ann("id", "Resolved")],
        };
        let principal = Entity { uid: id("User", "1"), attrs: vec![], parents: vec![] };
        let store = vec![Entity { uid: id("User", "1"), attrs: vec![], parents: vec![] }];
        let b = Bindings { principal, resource: Some(resource), context: vec![] };
        decide(&PolicySet { policies: vec![one] }, &store, &id("Action", "ViewProject"), &b)
    };
    assert_eq!(Ok(resolved(project_owned_by("1"))), full_owned);
    assert_eq!(Ok(resolved(project_owned_by("2"))), full_foreign);
}

#[test]
fn token_service_keeps_its_secret() {
    let service = TokenService::new("SECRET-REDACTED");
    assert_eq!(service.secret().as_str(), "SECRET-REDACTED");
}

fn clone_expr(e: &Expr) -> Expr {
    match e {
        Expr::Lit(v) => Expr::Lit(v.duplicate()),
        Expr::PrincipalRef => Expr::PrincipalRef,
        Expr::ResourceRef => Expr::ResourceRef,
        Expr::PrincipalAttr(n) => Expr::PrincipalAttr(n.clone()),
        Expr::ResourceAttr(n) => Expr::ResourceAttr(n.clone()),
        Expr::ContextAttr(n) => Expr::ContextAttr(n.clone()),
        Expr::Unknown(n) => Expr::Unknown(n.clone()),
        Expr::Eq(l, r) => Expr::Eq(Box::new(clone_expr(l)), Box::new(clone_expr(r))),
        Expr::In(l, r) => Expr::In(Box::new(clone_expr(l)), Box::new(clone_expr(r))),
        Expr::And(l, r) => Expr::And(Box::new(clone_expr(l)), Box::new(clone_expr(r))),
        Expr::Or(l, r) => Expr::Or(Box::new(clone_expr(l)), Box::new(clone_expr(r))),
    }
}

#[test]
fn empty_principal_id_is_rejected() {
    let roles = vec!["ProjectLead".to_string()];
    assert!(build_principal(String::new(), &roles).is_err());
    let built = build_principal("42".to_string(), &roles).unwrap();
    assert_eq!(built.uid.eid, "42");
    assert_eq!(built.parents.len(), 1);
    assert!(built.get_attr(&"clearance".to_string()).is_none());
}

#[test]
fn growing_residual_set_keeps_active_params() {
    let lead_only = ResourceAuthorizationResult::Residual(vec![ResidualPolicy {
        annotations: vec![ann("id", "ProjectLeadPolicy.Project")],
        condition: Expr::ResourceAttr("owner".to_string()),
    }]);
    let lead_and_dev = ResourceAuthorizationResult::Residual(vec![
        ResidualPolicy {
            annotations: vec![ann("id", "ProjectLeadPolicy.Project")],
            condition: Expr::ResourceAttr("owner".to_string()),
        },
        ResidualPolicy {
            annotations: vec![ann("id", "DeveloperPolicy")],
            condition: Expr::ResourceAttr("assigned_to".to_string()),
        },
    ]);
    let (small, _) = compile(&lead_only, &"1".to_string(), &project_registry());
    let (large, _) = compile(&lead_and_dev, &"1".to_string(), &project_registry());
    for p in &small.active_params {
        assert!(large.active_params.contains(p));
    }
    assert_eq!(large.active_params.len(), 2);
}

#[test]
fn principal_attribute_condition_decides() {
    let clearance_policy = Policy {
        effect: Effect::Permit,
        principal_scope: ScopePattern::Any,
        action_scope: ActionScope::AnyAction,
        resource_scope: ScopePattern::Any,
        condition: Some(Expr::Eq(
            Box::new(Expr::PrincipalAttr("clearance".to_string())),
            Box::new(Expr::Lit(Value::Int(3))),
        )),
        annotations: vec![ann("id", "ClearancePolicy")],
    };
    let principal = Entity {
        uid: id("User", "1"),
        attrs: vec![("clearance".to_string(), Value::Int(3))],
        parents: vec![],
    };
    let store = vec![principal.duplicate()];
    let b = Bindings {
        principal,
        resource: Some(Entity { uid: id("Project", "1"), attrs: vec![], parents: vec![] }),
        context: vec![],
    };
    let allow = decide(
        &PolicySet { policies: vec![clearance_policy] },
        &store,
        &id("Action", "ViewProject"),
        &b,
    );
    assert!(allow);
}
