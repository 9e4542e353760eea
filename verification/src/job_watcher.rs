//! The pure half of the queue watcher: the fixed field schema handed to
//! the listing command, the output-format string built from it, and the
//! parsing of one captured poll cycle into job records.

use vstd::prelude::*;
use vstd::string::StringExecFns;

use crate::job::Job;
use crate::job::JobView;

verus! {

/// Marker returned to the component that starts the background watcher;
/// the watcher itself owns no state a consumer may touch.
pub struct JobWatcherHandle {}

/// The fixed, ordered field list handed to the listing command. Its
/// order and names are part of the contract between the invocation and
/// the parser.
pub open spec fn spec_squeue_fields() -> Seq<Seq<char>> {
    seq![
        "jobid"@,
        "name"@,
        "state"@,
        "username"@,
        "timeused"@,
        "tres-alloc"@,
        "partition"@,
        "nodelist"@,
        "stdout"@,
        "stderr"@,
        "command"@,
        "statecompact"@,
        "reason"@,
        "ArrayJobID"@,
        "ArrayTaskID"@,
        "NodeList"@,
        "WorkDir"@,
        "tres-per-node"@,
    ]
}

/// The separator token the listing command is asked to put after each
/// field's value; chosen to be unlikely to collide with real output.
pub fn output_separator() -> (r: &'static str)
    ensures
        r@ == "###turm###"@,
{
    "###turm###"
}

/// The field list handed to the listing command, in its fixed order.
pub fn squeue_fields() -> (r: Vec<&'static str>)
    ensures
        crate::job::str_views(r@) == spec_squeue_fields(),
{
    let mut r: Vec<&'static str> = Vec::new();
    r.push("jobid");
    r.push("name");
    r.push("state");
    r.push("username");
    r.push("timeused");
    r.push("tres-alloc");
    r.push("partition");
    r.push("nodelist");
    r.push("stdout");
    r.push("stderr");
    r.push("command");
    r.push("statecompact");
    r.push("reason");
    r.push("ArrayJobID");
    r.push("ArrayTaskID");
    r.push("NodeList");
    r.push("WorkDir");
    r.push("tres-per-node");
    proof {
        assert(crate::job::str_views(r@) =~~= spec_squeue_fields());
    }
    r
}

/// The fixed field list carries every name the parser requires.
pub proof fn lemma_squeue_schema_ok()
    ensures
        crate::job::schema_ok(spec_squeue_fields()),
{
    let f = spec_squeue_fields();
    assert(f[0] == "jobid"@);
    assert(f[3] == "username"@);
    assert(f[1] == "name"@);
    assert(f[2] == "state"@);
    assert(f[4] == "timeused"@);
    assert(f[5] == "tres-alloc"@);
    assert(f[6] == "partition"@);
    assert(f[8] == "stdout"@);
    assert(f[9] == "stderr"@);
    assert(f[10] == "command"@);
    assert(f[11] == "statecompact"@);
    assert(f[13] == "ArrayJobID"@);
    assert(f[14] == "ArrayTaskID"@);
    assert(f[15] == "NodeList"@);
    assert(f[16] == "WorkDir"@);
    assert(f[17] == "tres-per-node"@);
    crate::job::lemma_lookup_idx(f, "jobid"@);
    crate::job::lemma_lookup_idx(f, "username"@);
    crate::job::lemma_lookup_idx(f, "name"@);
    crate::job::lemma_lookup_idx(f, "state"@);
    crate::job::lemma_lookup_idx(f, "timeused"@);
    crate::job::lemma_lookup_idx(f, "tres-alloc"@);
    crate::job::lemma_lookup_idx(f, "partition"@);
    crate::job::lemma_lookup_idx(f, "stdout"@);
    crate::job::lemma_lookup_idx(f, "stderr"@);
    crate::job::lemma_lookup_idx(f, "command"@);
    crate::job::lemma_lookup_idx(f, "statecompact"@);
    crate::job::lemma_lookup_idx(f, "ArrayJobID"@);
    crate::job::lemma_lookup_idx(f, "ArrayTaskID"@);
    crate::job::lemma_lookup_idx(f, "NodeList"@);
    crate::job::lemma_lookup_idx(f, "WorkDir"@);
    crate::job::lemma_lookup_idx(f, "tres-per-node"@);
}

/// The output-format string built from the field list: each field name
/// followed by `':'` and the separator token, the entries joined by
/// commas.
pub open spec fn format_of(fields: Seq<Seq<char>>, sep: Seq<char>) -> Seq<char>
    decreases fields.len(),
{
    if fields.len() == 0 {
        Seq::<char>::empty()
    } else if fields.len() == 1 {
        fields[0] + ":"@ + sep
    } else {
        format_of(fields.drop_last(), sep) + ","@ + fields.last() + ":"@ + sep
    }
}

/// Builds the output-format string handed to the listing command.
pub fn output_format(fields: &[&str], sep: &str) -> (r: String)
    ensures
        r@ == format_of(crate::job::str_views(fields@), sep@),
{
    let ghost fv = crate::job::str_views(fields@);
    let mut r = String::new();
    let mut i: usize = 0;
    while i < fields.len()
        invariant
            fv == crate::job::str_views(fields@),
            i <= fields@.len(),
            r@ == format_of(fv.take(i as int), sep@),
        decreases fields@.len() - i,
    {
        if i > 0 {
            r.append(",");
        }
        r.append(fields[i]);
        r.append(":");
        r.append(sep);
        i = i + 1;
        proof {
            let t = fv.take(i as int);
            assert(t.last() == fv[i - 1]);
            if i == 1 {
                assert(r@ =~= t[0] + ":"@ + sep@);
            } else {
                assert(t.drop_last() =~= fv.take(i - 1));
                assert(r@ =~= format_of(t.drop_last(), sep@) + ","@ + t.last() + ":"@ + sep@);
            }
        }
    }
    proof {
        assert(fv.take(fields@.len() as int) =~= fv);
    }
    r
}

/// The views of a sequence of jobs.
pub open spec fn job_views(s: Seq<Job>) -> Seq<JobView> {
    Seq::new(s.len(), |i: int| s[i]@)
}

/// The records of one captured poll cycle: each line of `lines`,
/// trimmed and parsed against the fixed schema; malformed lines are
/// dropped and order is kept.
pub open spec fn parse_jobs_spec(
    lines: Seq<Seq<char>>,
    fields: Seq<Seq<char>>,
    sep: Seq<char>,
) -> Seq<JobView>
    decreases lines.len(),
{
    if lines.len() == 0 {
        Seq::<JobView>::empty()
    } else {
        let rest = parse_jobs_spec(lines.drop_first(), fields, sep);
        match crate::job::parse_line_spec(crate::text::trim_spec(lines[0]), fields, sep) {
            Some(j) => seq![j] + rest,
            None => rest,
        }
    }
}

/// Parses the captured standard output of one poll cycle into the
/// ordered collection published to the consumer.
pub fn parse_jobs(output: &str) -> (r: Vec<Job>)
    ensures
        job_views(r@) == parse_jobs_spec(
            crate::text::split_on(output@, "\n"@),
            spec_squeue_fields(),
            "###turm###"@,
        ),
{
    let fields = squeue_fields();
    let sep = output_separator();
    let text = crate::text::str_to_chars(output);
    let nl = crate::text::str_to_chars("\n");
    proof {
        reveal_strlit("\n");
        reveal_strlit("###turm###");
    }
    let lines = crate::text::split_chars(&text, &nl);
    let ghost lines_v = crate::text::vec_views(lines@);
    let mut r: Vec<Job> = Vec::new();
    let mut i: usize = 0;
    proof {
        assert(lines_v.skip(0) =~~= lines_v);
        assert(job_views(r@) + parse_jobs_spec(lines_v, spec_squeue_fields(), sep@)
            =~= parse_jobs_spec(lines_v, spec_squeue_fields(), sep@));
    }
    while i < lines.len()
        invariant
            crate::job::str_views(fields@) == spec_squeue_fields(),
            sep@ == "###turm###"@,
            sep@.len() > 0,
            lines_v == crate::text::vec_views(lines@),
            lines_v == crate::text::split_on(output@, "\n"@),
            i <= lines@.len(),
            parse_jobs_spec(lines_v, spec_squeue_fields(), sep@) == job_views(r@)
                + parse_jobs_spec(lines_v.skip(i as int), spec_squeue_fields(), sep@),
        decreases lines@.len() - i,
    {
        let ghost old_i = i as int;
        let ghost old_r = r@;
        let trimmed = crate::text::trim_chars(&lines[i]);
        let line_s = crate::text::chars_to_string(&trimmed);
        proof {
            lemma_squeue_schema_ok();
            assert(line_s@ == crate::text::trim_spec(lines_v[old_i]));
        }
        let parsed = Job::from_parts(line_s, fields.as_slice(), sep);
        i = i + 1;
        proof {
            let rem = lines_v.skip(old_i);
            assert(rem[0] == lines_v[old_i]);
            assert(rem.drop_first() =~~= lines_v.skip(i as int));
        }
        match parsed {
            Some(j) => {
                let ghost jv = j@;
                r.push(j);
                proof {
                    assert(job_views(r@) =~~= job_views(old_r) + seq![jv]);
                    assert((job_views(old_r) + seq![jv]) + parse_jobs_spec(
                        lines_v.skip(i as int),
                        spec_squeue_fields(),
                        sep@,
                    ) =~= job_views(old_r) + (seq![jv] + parse_jobs_spec(
                        lines_v.skip(i as int),
                        spec_squeue_fields(),
                        sep@,
                    )));
                }
            },
            None => {},
        }
    }
    proof {
        assert(lines_v.skip(lines@.len() as int) =~~= Seq::<Seq<char>>::empty());
        assert(job_views(r@) + Seq::<JobView>::empty() =~= job_views(r@));
    }
    r
}

} // verus!
