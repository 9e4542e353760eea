use turm_core::job::schema_is_complete;
use turm_core::job::Job;
use turm_core::job_watcher::squeue_fields;

const SEP: &str = "###turm###";

fn make_line(vals: &[&str]) -> String {
    let mut s = String::new();
    for v in vals {
        s.push_str(v);
        s.push_str(SEP);
    }
    s
}

fn sample_vals() -> Vec<&'static str> {
    vec![
        "42",           // jobid
        "myjob",        // name
        "RUNNING",      // state
        "alice",        // username
        "1:23",         // timeused
        "cpu=2,mem=4G", // tres-alloc
        "main",         // partition
        "node1",        // nodelist
        "/tmp/out.txt", // stdout
        "(null)",       // stderr
        "/bin/run",     // command
        "R",            // statecompact
        "None",         // reason
        "42",           // ArrayJobID
        "N/A",          // ArrayTaskID
        "node1,node2",  // NodeList
        "/home/alice",  // WorkDir
        "N/A",          // tres-per-node
    ]
}

fn parse(vals: &[&str]) -> Option<Job> {
    let fields = squeue_fields();
    Job::from_parts(make_line(vals), &fields, SEP)
}

#[test]
fn malformed_line_is_dropped() {
    let fields = squeue_fields();
    let short = make_line(&sample_vals()[..17]);
    assert!(Job::from_parts(short, &fields, SEP).is_none());
    assert!(Job::from_parts(String::new(), &fields, SEP).is_none());
    assert!(Job::from_parts("garbage".to_string(), &fields, SEP).is_none());
}

#[test]
fn non_array_job_id_is_raw_job_id() {
    let job = parse(&sample_vals()).unwrap();
    assert!(job.array_step.is_none());
    assert_eq!(job.id(), "42");
}

#[test]
fn array_job_composite_id() {
    let mut vals = sample_vals();
    vals[13] = "100"; // ArrayJobID
    vals[14] = "3"; // ArrayTaskID
    let job = parse(&vals).unwrap();
    assert_eq!(job.array_step.as_deref(), Some("3"));
    assert_eq!(job.id(), "100_3");
}

#[test]
fn tres_without_device_allocation() {
    let job = parse(&sample_vals()).unwrap();
    assert_eq!(job.tres, "cpu=2,mem=4G");
}

#[test]
fn tres_merges_device_allocation() {
    let mut vals = sample_vals();
    vals[17] = "gpu:1"; // tres-per-node
    let job = parse(&vals).unwrap();
    assert_eq!(job.tres, "cpu=2,mem=4G,gpu:1");
}

#[test]
fn reason_none_sentinel_is_absent() {
    let job = parse(&sample_vals()).unwrap();
    assert!(job.reason.is_none());
}

#[test]
fn reason_other_value_is_kept_verbatim() {
    let mut vals = sample_vals();
    vals[12] = "Dependency"; // reason
    let job = parse(&vals).unwrap();
    assert_eq!(job.reason.as_deref(), Some("Dependency"));
}

#[test]
fn verbatim_fields_are_kept() {
    let job = parse(&sample_vals()).unwrap();
    assert_eq!(job.job_id, "42");
    assert_eq!(job.array_id, "42");
    assert_eq!(job.name, "myjob");
    assert_eq!(job.state, "RUNNING");
    assert_eq!(job.state_compact, "R");
    assert_eq!(job.user, "alice");
    assert_eq!(job.time, "1:23");
    assert_eq!(job.partition, "main");
    assert_eq!(job.nodelist, "node1,node2");
    assert_eq!(job.command, "/bin/run");
}

#[test]
fn absolute_stdout_template_stays_absolute() {
    let job = parse(&sample_vals()).unwrap();
    assert_eq!(job.stdout.as_deref(), Some("/tmp/out.txt"));
}

#[test]
fn null_stderr_template_is_absent() {
    let job = parse(&sample_vals()).unwrap();
    assert!(job.stderr.is_none());
}

#[test]
fn relative_stdout_template_resolves_under_workdir() {
    let mut vals = sample_vals();
    vals[8] = "%x-%j.out"; // stdout
    let job = parse(&vals).unwrap();
    assert_eq!(job.stdout.as_deref(), Some("/home/alice/myjob-42.out"));
}

#[test]
fn schema_drift_is_detectable() {
    let fields = squeue_fields();
    assert!(schema_is_complete(&fields));
    let drifted: Vec<&str> = fields.iter().copied().filter(|f| *f != "jobid").collect();
    assert!(!schema_is_complete(&drifted));
    let reordered: Vec<&str> = fields.iter().rev().copied().collect();
    assert!(schema_is_complete(&reordered));
}

#[test]
fn duplicate_field_name_later_occurrence_wins() {
    let mut fields = squeue_fields();
    fields.push("name");
    let mut vals = sample_vals();
    vals.push("latername");
    let line = make_line(&vals);
    let job = Job::from_parts(line, &fields, SEP).unwrap();
    assert_eq!(job.name, "latername");
}
