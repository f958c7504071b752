use chitta::facets::{Facets, HasFacets};
use chitta::tools::search::AppliesTo;

#[test]
fn default_is_empty() {
    let f = Facets::default();
    assert!(f.is_empty());
    assert!(f.domains.is_empty());
    assert!(f.skills.is_empty());
    assert!(f.projects.is_empty());
    assert!(f.situations.is_empty());
}

#[test]
fn is_empty_false_when_any_facet_populated() {
    let cases = vec![
        Facets {
            domains: vec!["rust".into()],
            ..Default::default()
        },
        Facets {
            skills: vec!["review".into()],
            ..Default::default()
        },
        Facets {
            projects: vec!["chitta".into()],
            ..Default::default()
        },
        Facets {
            situations: vec!["debugging".into()],
            ..Default::default()
        },
    ];
    for f in &cases {
        assert!(!f.is_empty(), "expected non-empty for {f:?}");
    }
}

#[test]
fn from_applies_to_all_none() {
    let a = AppliesTo::default();
    let f = Facets::from(a);
    assert!(f.is_empty());
}

#[test]
fn from_applies_to_all_some() {
    let a = AppliesTo {
        domains: Some(vec!["rust".into()]),
        skills: Some(vec!["review".into(), "reflect".into()]),
        projects: Some(vec!["chitta".into()]),
        situations: Some(vec!["debugging".into()]),
    };
    let f = Facets::from(a);
    assert_eq!(f.domains, vec!["rust"]);
    assert_eq!(f.skills, vec!["review", "reflect"]);
    assert_eq!(f.projects, vec!["chitta"]);
    assert_eq!(f.situations, vec!["debugging"]);
}

#[test]
fn sql_contains_filters_zero_facets() {
    let f = Facets::default();
    let (sql, binds) = f.sql_contains_filters(1);
    assert_eq!(sql, "");
    assert!(binds.is_empty());
}

#[test]
fn sql_contains_filters_one_facet() {
    let f = Facets {
        domains: vec!["rust".into()],
        ..Default::default()
    };
    let (sql, binds) = f.sql_contains_filters(5);
    assert_eq!(sql, " AND applies_to_domains @> $5");
    assert_eq!(binds.len(), 1);
    assert_eq!(binds[0], &["rust".to_string()]);
}

#[test]
fn sql_contains_filters_two_facets() {
    let f = Facets {
        skills: vec!["review".into()],
        situations: vec!["debugging".into()],
        ..Default::default()
    };
    let (sql, binds) = f.sql_contains_filters(3);
    assert_eq!(
        sql,
        " AND applies_to_skills @> $3 AND applies_to_situations @> $4"
    );
    assert_eq!(binds.len(), 2);
}

#[test]
fn sql_contains_filters_all_four_facets() {
    let f = Facets {
        domains: vec!["rust".into()],
        skills: vec!["review".into()],
        projects: vec!["chitta".into()],
        situations: vec!["debugging".into()],
    };
    let (sql, binds) = f.sql_contains_filters(7);
    assert!(sql.contains("applies_to_domains @> $7"));
    assert!(sql.contains("applies_to_skills @> $8"));
    assert!(sql.contains("applies_to_projects @> $9"));
    assert!(sql.contains("applies_to_situations @> $10"));
    assert_eq!(binds.len(), 4);
}

#[test]
fn sql_contains_filters_numbers_below_zero() {
    let f = Facets {
        domains: vec!["rust".into()],
        skills: vec!["review".into()],
        ..Default::default()
    };
    let (sql, _) = f.sql_contains_filters(-1);
    assert_eq!(sql, " AND applies_to_domains @> $-1 AND applies_to_skills @> $0");
}

#[test]
fn sql_filter_clauses_cover_every_facet() {
    assert_eq!(
        Facets::sql_filter_clauses(7),
        " AND ($7::text[] = '{}' OR applies_to_domains @> $7) \
         AND ($8::text[] = '{}' OR applies_to_skills @> $8) \
         AND ($9::text[] = '{}' OR applies_to_projects @> $9) \
         AND ($10::text[] = '{}' OR applies_to_situations @> $10)"
    );
}

#[test]
fn distinct_union_empty() {
    let items: Vec<Facets> = vec![];
    let result = Facets::distinct_union(&items);
    assert!(result.is_empty());
}

#[test]
fn distinct_union_deduplicates_and_sorts() {
    let items = vec![
        Facets {
            domains: vec!["rust".into(), "python".into()],
            skills: vec!["review".into()],
            ..Default::default()
        },
        Facets {
            domains: vec!["rust".into(), "go".into()],
            skills: vec!["reflect".into(), "review".into()],
            projects: vec!["chitta".into()],
            ..Default::default()
        },
    ];
    let result = Facets::distinct_union(&items);
    assert_eq!(result.domains, vec!["go", "python", "rust"]);
    assert_eq!(result.skills, vec!["reflect", "review"]);
    assert_eq!(result.projects, vec!["chitta"]);
    assert!(result.situations.is_empty());
}

#[test]
fn distinct_union_with_has_facets_trait() {
    struct Row {
        d: Vec<String>,
        s: Vec<String>,
    }
    impl HasFacets for Row {
        fn domains(&self) -> &[String] {
            &self.d
        }
        fn skills(&self) -> &[String] {
            &self.s
        }
        fn projects(&self) -> &[String] {
            &[]
        }
        fn situations(&self) -> &[String] {
            &[]
        }
    }
    let rows = vec![
        Row {
            d: vec!["a".into()],
            s: vec!["x".into()],
        },
        Row {
            d: vec!["b".into(), "a".into()],
            s: vec!["y".into()],
        },
    ];
    let result = Facets::distinct_union(&rows);
    assert_eq!(result.domains, vec!["a", "b"]);
    assert_eq!(result.skills, vec!["x", "y"]);
}

#[test]
fn distinct_union_ignores_order_and_is_idempotent() {
    let a = Facets {
        domains: vec!["zeta".into(), "alpha".into(), "école".into()],
        ..Default::default()
    };
    let b = Facets {
        domains: vec!["alpha".into(), "Beta".into()],
        ..Default::default()
    };
    let ab = Facets::distinct_union(&[a.clone(), b.clone()]);
    let ba = Facets::distinct_union(&[b, a]);
    assert_eq!(ab, ba);
    assert_eq!(ab.domains, vec!["Beta", "alpha", "zeta", "école"]);
    assert_eq!(Facets::distinct_union(&[ab.clone()]), ab);
}

#[test]
fn distinct_union_orders_as_strings_do() {
    let words = ["b", "ab", "a", "", "abc", "ß", "z", "日本", "Z"];
    let f = Facets {
        skills: words.iter().map(|w| w.to_string()).collect(),
        ..Default::default()
    };
    let mut expected: Vec<String> = words.iter().map(|w| w.to_string()).collect();
    expected.sort();
    assert_eq!(Facets::distinct_union(&[f]).skills, expected);
}
