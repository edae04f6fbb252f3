use gitlab_mr_resource::common::Author;
use gitlab_mr_resource::common::Change;
use gitlab_mr_resource::common::Commit;
use gitlab_mr_resource::common::MergeRequest;
use gitlab_mr_resource::common::MergeRequestChanges;
use gitlab_mr_resource::common::Version;
use gitlab_mr_resource::marker::encode_marker;
use gitlab_mr_resource::marker::parse_marker;
use gitlab_mr_resource::materialize::Params;
use gitlab_mr_resource::materialize::ResourceInput;
use gitlab_mr_resource::materialize::plan_materialization;
use gitlab_mr_resource::reporter::build_target_url;
use gitlab_mr_resource::reporter::parse_status;
use gitlab_mr_resource::reporter::render_status_name;
use gitlab_mr_resource::reporter::report_metadata;
use gitlab_mr_resource::reporter::CommitState;
use gitlab_mr_resource::reporter::ReportError;
use gitlab_mr_resource::resolver::build_versions;
use gitlab_mr_resource::resolver::retain_candidate;
use gitlab_mr_resource::resolver::validate_patterns;
use gitlab_mr_resource::resolver::ResolveError;
use gitlab_mr_resource::strutil::parse_u64;
use gitlab_mr_resource::strutil::u64_to_string;
use gitlab_mr_resource::uri::gitlab_endpoint;
use gitlab_mr_resource::common::Source;

fn merge_request(iid: u64, sha: &str) -> MergeRequest {
    MergeRequest {
        iid,
        title: format!("title {}", iid),
        labels: Vec::new(),
        sha: sha.to_owned(),
        author: Author { name: "someone".to_owned() },
        updated_at: "2021-01-01T00:00:00Z".to_owned(),
        source_project_id: 7,
        source_branch: "topic".to_owned(),
        web_url: format!("https://gitlab.example/mr/{}", iid),
    }
}

fn commit(date: &str) -> Commit {
    Commit { committed_date: date.to_owned() }
}

#[test]
fn versions_are_ordered_by_commit_instant_not_text() {
    // the first candidate's timestamp is textually larger but denotes the
    // earlier instant, so chrono, not string order, must decide
    let survivors = vec![
        (merge_request(2, "bbb"), commit("2021-06-01T00:00:00+09:00")),
        (merge_request(1, "aaa"), commit("2021-05-31T20:00:00Z")),
    ];
    let versions = build_versions(&survivors, &None).unwrap();
    assert_eq!(versions.len(), 2);
    assert_eq!(versions[0].iid, "2".to_owned());
    assert_eq!(versions[0].sha, "bbb".to_owned());
    assert_eq!(versions[1].iid, "1".to_owned());
}

#[test]
fn versions_tie_break_on_id() {
    let survivors = vec![
        (merge_request(5, "eee"), commit("2021-01-01T00:00:00Z")),
        (merge_request(3, "ccc"), commit("2021-01-01T00:00:00Z")),
    ];
    let versions = build_versions(&survivors, &None).unwrap();
    assert_eq!(versions.len(), 2);
    assert_eq!(versions[0].iid, "3".to_owned());
    assert_eq!(versions[1].iid, "5".to_owned());
}

#[test]
fn cursor_drops_versions_at_or_before_prior() {
    let prior = Version {
        iid: "9".to_owned(),
        committed_date: "2021-01-02T00:00:00Z".to_owned(),
        sha: "ppp".to_owned(),
    };
    let survivors = vec![
        (merge_request(1, "aaa"), commit("2021-01-01T00:00:00Z")),
        (merge_request(2, "bbb"), commit("2021-01-02T00:00:00Z")),
        (merge_request(3, "ccc"), commit("2021-01-03T00:00:00Z")),
    ];
    let versions = build_versions(&survivors, &Some(prior)).unwrap();
    assert_eq!(versions.len(), 1);
    assert_eq!(versions[0].iid, "3".to_owned());
    assert_eq!(versions[0].committed_date, "2021-01-03T00:00:00Z".to_owned());
}

#[test]
fn empty_survivor_set_resolves_to_empty_stream() {
    let versions = build_versions(&Vec::new(), &None).unwrap();
    assert!(versions.is_empty());
}

#[test]
fn unparsable_prior_date_is_fatal() {
    let prior = Version {
        iid: "9".to_owned(),
        committed_date: "not a date".to_owned(),
        sha: "ppp".to_owned(),
    };
    let r = build_versions(&Vec::new(), &Some(prior));
    assert!(matches!(r, Err(ResolveError::InvalidPriorDate)));
}

#[test]
fn unparsable_commit_date_is_fatal() {
    let survivors = vec![(merge_request(1, "aaa"), commit("never"))];
    let r = build_versions(&survivors, &None);
    assert!(matches!(r, Err(ResolveError::InvalidCommitDate { index: 0 })));
}

fn changes(paths: &[&str]) -> MergeRequestChanges {
    MergeRequestChanges {
        changes: paths.iter().map(|p| Change { new_path: (*p).to_owned() }).collect(),
    }
}

#[test]
fn no_patterns_retains_every_candidate() {
    let r = retain_candidate(&None, &None);
    assert!(matches!(r, Ok(true)));
}

#[test]
fn path_filter_keeps_a_candidate_with_a_matching_path() {
    let patterns = Some(vec!["src/*.rs".to_owned(), "docs/?.md".to_owned()]);
    let kept = retain_candidate(&patterns, &Some(changes(&["README", "src/lib.rs"])));
    assert!(matches!(kept, Ok(true)));
    let dropped = retain_candidate(&patterns, &Some(changes(&["README", "docs/notes.txt"])));
    assert!(matches!(dropped, Ok(false)));
}

#[test]
fn missing_change_set_is_fatal_when_patterns_are_configured() {
    let patterns = Some(vec!["*.rs".to_owned()]);
    let r = retain_candidate(&patterns, &None);
    assert!(matches!(r, Err(ResolveError::MissingChangeSet)));
}

#[test]
fn invalid_pattern_is_a_fatal_configuration_error() {
    let patterns = Some(vec!["src/*.rs".to_owned(), "[".to_owned()]);
    let r = validate_patterns(&patterns);
    assert!(matches!(r, Err(ResolveError::InvalidPattern { index: 1 })));
    let kept = retain_candidate(&patterns, &Some(changes(&["src/lib.rs"])));
    assert!(matches!(kept, Err(ResolveError::InvalidPattern { index: 1 })));
}

#[test]
fn status_strings_map_to_the_five_states() {
    assert!(matches!(parse_status("canceled"), Ok(CommitState::Canceled)));
    assert!(matches!(parse_status("running"), Ok(CommitState::Running)));
    assert!(matches!(parse_status("pending"), Ok(CommitState::Pending)));
    assert!(matches!(parse_status("failed"), Ok(CommitState::Failed)));
    assert!(matches!(parse_status("success"), Ok(CommitState::Success)));
}

#[test]
fn any_other_status_string_is_fatal() {
    assert!(matches!(parse_status("passed"), Err(ReportError::InvalidStatus)));
    assert!(matches!(parse_status(""), Err(ReportError::InvalidStatus)));
    assert!(matches!(parse_status("Success"), Err(ReportError::InvalidStatus)));
}

#[test]
fn target_url_without_instance_vars_has_no_query() {
    let url = build_target_url("https://ci.example", "t", "p", "j", "4", &None);
    assert_eq!(url, "https://ci.example/teams/t/pipelines/p/jobs/j/builds/4".to_owned());
}

#[test]
fn target_url_appends_flattened_instance_vars() {
    let url = build_target_url(
        "https://ci.example",
        "t",
        "p",
        "j",
        "4",
        &Some("vars.a=0".to_owned()),
    );
    assert_eq!(
        url,
        "https://ci.example/teams/t/pipelines/p/jobs/j/builds/4?vars.a=0".to_owned()
    );
}

#[test]
fn default_status_name_is_team_and_pipeline() {
    let name = render_status_name(&None, "team", "pipe", "job", "");
    assert_eq!(name, "team::pipe".to_owned());
}

#[test]
fn template_placeholders_are_all_substituted() {
    let template = "ci %BUILD_TEAM_NAME%/%BUILD_PIPELINE_NAME%%BUILD_PIPELINE_INSTANCE_VARS% \
                    job %BUILD_JOB_NAME%"
        .to_owned();
    let name = render_status_name(&Some(template), "team", "pipe", "job", "");
    assert_eq!(name, "ci team/pipe job job".to_owned());
    assert!(!name.contains('%'));
}

#[test]
fn marker_round_trips_a_version() {
    let v = Version {
        iid: "42".to_owned(),
        committed_date: "2021-01-02T03:04:05Z".to_owned(),
        sha: "0123abcd".to_owned(),
    };
    let text = encode_marker(&v);
    let back = parse_marker(text.as_str()).unwrap();
    assert_eq!(back, v);
}

#[test]
fn marker_round_trips_awkward_characters() {
    let v = Version {
        iid: "a\"b\\c".to_owned(),
        committed_date: "line\nbreak\ttab\u{1}".to_owned(),
        sha: "plain".to_owned(),
    };
    let text = encode_marker(&v);
    let back = parse_marker(text.as_str()).unwrap();
    assert_eq!(back, v);
}

#[test]
fn marker_rejects_other_text() {
    assert!(parse_marker("").is_none());
    assert!(parse_marker("{}").is_none());
    assert!(parse_marker("{\"iid\":\"1\"}").is_none());
}

fn input_with(params: Option<Params>) -> ResourceInput {
    ResourceInput {
        version: None,
        source: Source {
            uri: String::new(),
            private_token: String::new(),
            labels: None,
            paths: None,
            skip_draft: None,
        },
        params,
    }
}

#[test]
fn test_is_clone_skippable() {
    let cases: Vec<(Option<Params>, bool)> = vec![
        (None, false),
        (Some(Params { skip_clone: Some(true) }), true),
        (Some(Params { skip_clone: Some(false) }), false),
        (Some(Params { skip_clone: None }), false),
    ];
    for (params, expect) in cases {
        let input = input_with(params);
        assert_eq!(input.is_clone_skippable(), expect);
    }
}

#[test]
fn materialization_clones_unless_skipped_and_always_keeps_the_marker() {
    let v = Version {
        iid: "1".to_owned(),
        committed_date: "2021-01-01T00:00:00Z".to_owned(),
        sha: "abc".to_owned(),
    };
    let mr = merge_request(1, "abc");
    let skipping = plan_materialization(
        &input_with(Some(Params { skip_clone: Some(true) })),
        &v,
        &mr,
    );
    assert!(!skipping.do_clone);
    assert_eq!(skipping.marker, v);
    let cloning = plan_materialization(&input_with(None), &v, &mr);
    assert!(cloning.do_clone);
    assert_eq!(cloning.marker, v);
    assert_eq!(cloning.metadata.len(), 3);
    assert_eq!(cloning.metadata[0].name, "url".to_owned());
    assert_eq!(cloning.metadata[0].value, mr.web_url);
    assert_eq!(cloning.metadata[1].name, "author".to_owned());
    assert_eq!(cloning.metadata[1].value, "someone".to_owned());
    assert_eq!(cloning.metadata[2].name, "title".to_owned());
    assert_eq!(cloning.metadata[2].value, mr.title);
}

#[test]
fn reporter_metadata_appends_the_host_status() {
    let mr = merge_request(1, "abc");
    let status = "success".to_owned();
    let meta = report_metadata(&mr, &status);
    assert_eq!(meta.len(), 4);
    assert_eq!(meta[3].name, "status".to_owned());
    assert_eq!(meta[3].value, "success".to_owned());
}

#[test]
fn endpoint_splits_host_and_trims_project_path() {
    let r = gitlab_endpoint("https://gitlab.com/cheatsc/test.git").unwrap();
    assert_eq!(r.0, "gitlab.com".to_owned());
    assert_eq!(r.1, "cheatsc/test".to_owned());
    assert!(gitlab_endpoint("not a uri").is_none());
}

#[test]
fn id_strings_round_trip_through_decimal() {
    assert_eq!(u64_to_string(0), "0".to_owned());
    assert_eq!(u64_to_string(90210), "90210".to_owned());
    assert_eq!(parse_u64("42"), Some(42));
    assert_eq!(parse_u64(""), None);
    assert_eq!(parse_u64("4x2"), None);
    assert_eq!(parse_u64("18446744073709551615"), Some(u64::MAX));
    assert_eq!(parse_u64("18446744073709551616"), None);
}
