use turm_core::job::Job;
use turm_core::job::ResolveContext;

fn ctx() -> ResolveContext {
    ResolveContext {
        array_job_id: "10".to_string(),
        array_task_id: "N/A".to_string(),
        job_id: "55".to_string(),
        nodelist: "node1,node2".to_string(),
        username: "alice".to_string(),
        name: "foo".to_string(),
        working_dir: "/w".to_string(),
    }
}

#[test]
fn placeholders_substituted_under_workdir() {
    let r = Job::resolve_path("%x-%j.out", &ctx());
    assert_eq!(r.as_deref(), Some("/w/foo-55.out"));
}

#[test]
fn empty_template_non_array_default() {
    let r = Job::resolve_path("", &ctx());
    assert_eq!(r.as_deref(), Some("/w/slurm-55.out"));
}

#[test]
fn empty_template_array_default() {
    let mut c = ctx();
    c.array_task_id = "2".to_string();
    c.array_job_id = "10".to_string();
    let r = Job::resolve_path("", &c);
    assert_eq!(r.as_deref(), Some("/w/slurm-10_2.out"));
}

#[test]
fn null_template_is_absent() {
    assert!(Job::resolve_path("(null)", &ctx()).is_none());
    let mut c = ctx();
    c.array_task_id = "7".to_string();
    c.working_dir = "elsewhere".to_string();
    assert!(Job::resolve_path("(null)", &c).is_none());
}

#[test]
fn no_placeholder_template_joined_and_idempotent() {
    let first = Job::resolve_path("plain.out", &ctx()).unwrap();
    assert_eq!(first, "/w/plain.out");
    let second = Job::resolve_path(&first, &ctx()).unwrap();
    assert_eq!(second, first);
}

#[test]
fn doubled_percent_is_literal() {
    let r = Job::resolve_path("%%j.out", &ctx());
    assert_eq!(r.as_deref(), Some("/w/%j.out"));
}

#[test]
fn unknown_escape_is_kept() {
    let r = Job::resolve_path("a%qb", &ctx());
    assert_eq!(r.as_deref(), Some("/w/a%qb"));
}

#[test]
fn node_escape_takes_first_host() {
    let r = Job::resolve_path("%N.out", &ctx());
    assert_eq!(r.as_deref(), Some("/w/node1.out"));
}

#[test]
fn fixed_value_escapes() {
    let mut c = ctx();
    c.array_task_id = "4".to_string();
    c.array_job_id = "9".to_string();
    c.username = "bob".to_string();
    let r = Job::resolve_path("%A_%a_%u_%s_%t_%n", &c);
    assert_eq!(r.as_deref(), Some("/w/9_4_bob_batch_0_0"));
}

#[test]
fn non_array_task_id_uses_numeric_sentinel() {
    let r = Job::resolve_path("t-%a.out", &ctx());
    assert_eq!(r.as_deref(), Some("/w/t-4294967294.out"));
}

#[test]
fn absolute_substituted_path_ignores_workdir() {
    let r = Job::resolve_path("/abs/%x.log", &ctx());
    assert_eq!(r.as_deref(), Some("/abs/foo.log"));
}

#[test]
fn workdir_with_trailing_separator() {
    let mut c = ctx();
    c.working_dir = "/w/".to_string();
    let r = Job::resolve_path("o.txt", &c);
    assert_eq!(r.as_deref(), Some("/w/o.txt"));
}

#[test]
fn relative_workdir_joined() {
    let mut c = ctx();
    c.working_dir = "w".to_string();
    let r = Job::resolve_path("o.txt", &c);
    assert_eq!(r.as_deref(), Some("w/o.txt"));
}

#[test]
fn trailing_percent_is_kept() {
    let r = Job::resolve_path("a%", &ctx());
    assert_eq!(r.as_deref(), Some("/w/a%"));
}
