use turm_core::job_watcher::output_format;
use turm_core::job_watcher::output_separator;
use turm_core::job_watcher::parse_jobs;
use turm_core::job_watcher::squeue_fields;

fn sample_line(jobid: &str, task_id: &str) -> String {
    let vals = [
        jobid,
        "myjob",
        "RUNNING",
        "alice",
        "1:23",
        "cpu=2,mem=4G",
        "main",
        "node1",
        "/tmp/out.txt",
        "(null)",
        "/bin/run",
        "R",
        "None",
        jobid,
        task_id,
        "node1",
        "/home/alice",
        "N/A",
    ];
    let mut s = String::new();
    for v in vals {
        s.push_str(v);
        s.push_str("###turm###");
    }
    s
}

#[test]
fn separator_token() {
    assert_eq!(output_separator(), "###turm###");
}

#[test]
fn format_string_joins_fields() {
    let fields = squeue_fields();
    let expected = fields
        .iter()
        .map(|f| format!("{}:{}", f, "###turm###"))
        .collect::<Vec<_>>()
        .join(",");
    assert_eq!(output_format(&fields, output_separator()), expected);
}

#[test]
fn format_of_empty_field_list() {
    assert_eq!(output_format(&[], "###turm###"), "");
}

#[test]
fn parse_jobs_keeps_order_and_drops_noise() {
    let text = format!(
        "{}\nnot a job line\n\n  {}  \n",
        sample_line("1", "N/A"),
        sample_line("2", "5"),
    );
    let jobs = parse_jobs(&text);
    assert_eq!(jobs.len(), 2);
    assert_eq!(jobs[0].id(), "1");
    assert_eq!(jobs[1].id(), "2_5");
}

#[test]
fn parse_jobs_of_empty_output() {
    assert_eq!(parse_jobs("").len(), 0);
    assert_eq!(parse_jobs("\n\n").len(), 0);
}

#[test]
fn parse_jobs_handles_carriage_returns() {
    let text = format!("{}\r\n", sample_line("9", "N/A"));
    let jobs = parse_jobs(&text);
    assert_eq!(jobs.len(), 1);
    assert_eq!(jobs[0].id(), "9");
    assert_eq!(jobs[0].stdout.as_deref(), Some("/tmp/out.txt"));
}
