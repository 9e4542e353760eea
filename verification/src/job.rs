//! Job records parsed from one line of the scheduler's queue listing,
//! and the resolver for the scheduler's percent-escape filename patterns.

use vstd::prelude::*;
use vstd::string::StringExecFns;

verus! {

/// One snapshot of one scheduler job entry at poll time.
///
/// A record is immutable once constructed; every poll cycle produces an
/// entirely new collection rather than mutating prior records.
pub struct Job {
    /// Scheduler-assigned primary identifier.
    pub job_id: String,
    /// Identifier of the array-job this entry belongs to
    /// (equal to `job_id` for non-array jobs).
    pub array_id: String,
    /// Present only for jobs that are part of a job array: the task index.
    pub array_step: Option<String>,
    pub name: String,
    /// Human-readable job state.
    pub state: String,
    /// Abbreviated job state.
    pub state_compact: String,
    /// Pending/blocked reason; absent when the scheduler reports none.
    pub reason: Option<String>,
    pub user: String,
    pub time: String,
    /// Combined resource-allocation descriptor: the CPU/memory allocation,
    /// merged with any node-local device allocation when present.
    pub tres: String,
    pub partition: String,
    pub nodelist: String,
    /// Resolved path of the job's standard output, when it has one.
    pub stdout: Option<String>,
    /// Resolved path of the job's standard error, when it has one.
    pub stderr: Option<String>,
    pub command: String,
}

/// The mathematical content of a `Job`: each text field as its
/// sequence of characters.
pub ghost struct JobView {
    pub job_id: Seq<char>,
    pub array_id: Seq<char>,
    pub array_step: Option<Seq<char>>,
    pub name: Seq<char>,
    pub state: Seq<char>,
    pub state_compact: Seq<char>,
    pub reason: Option<Seq<char>>,
    pub user: Seq<char>,
    pub time: Seq<char>,
    pub tres: Seq<char>,
    pub partition: Seq<char>,
    pub nodelist: Seq<char>,
    pub stdout: Option<Seq<char>>,
    pub stderr: Option<Seq<char>>,
    pub command: Seq<char>,
}

pub open spec fn view_of_opt(o: Option<String>) -> Option<Seq<char>> {
    match o {
        Some(s) => Some(s@),
        None => None,
    }
}

impl View for Job {
    type V = JobView;

    open spec fn view(&self) -> JobView {
        JobView {
            job_id: self.job_id@,
            array_id: self.array_id@,
            array_step: view_of_opt(self.array_step),
            name: self.name@,
            state: self.state@,
            state_compact: self.state_compact@,
            reason: view_of_opt(self.reason),
            user: self.user@,
            time: self.time@,
            tres: self.tres@,
            partition: self.partition@,
            nodelist: self.nodelist@,
            stdout: view_of_opt(self.stdout),
            stderr: view_of_opt(self.stderr),
            command: self.command@,
        }
    }
}

/// The composite identity of a record: the array id joined to the array
/// step by `'_'` when the step is present, the plain job id otherwise.
/// Two records with the same composite id represent the same logical
/// work unit.
pub open spec fn spec_id(j: JobView) -> Seq<char> {
    match j.array_step {
        Some(step) => j.array_id + "_"@ + step,
        None => j.job_id,
    }
}

impl Job {
    /// The composite identity used by the rest of the system.
    pub fn id(&self) -> (r: String)
        ensures
            r@ == spec_id(self@),
    {
        match &self.array_step {
            Some(step) => self.array_id.clone().concat("_").concat(step.as_str()),
            None => self.job_id.clone(),
        }
    }
}

/// The views of a sequence of string slices.
pub open spec fn str_views(s: Seq<&str>) -> Seq<Seq<char>> {
    Seq::new(s.len(), |i: int| s[i]@)
}

/// The index of the last entry of `fields` equal to `name`, `-1` when
/// there is none. When a field name occurs twice the later occurrence
/// wins, as the later insertion into a lookup table would.
pub open spec fn lookup_idx(fields: Seq<Seq<char>>, name: Seq<char>) -> int
    decreases fields.len(),
{
    if fields.len() == 0 {
        -1
    } else if fields.last() == name {
        fields.len() - 1
    } else {
        lookup_idx(fields.drop_last(), name)
    }
}

pub open spec fn has_field(fields: Seq<Seq<char>>, name: Seq<char>) -> bool {
    lookup_idx(fields, name) >= 0
}

/// The piece of the split line associated with the field called `name`.
pub open spec fn lookup(fields: Seq<Seq<char>>, parts: Seq<Seq<char>>, name: Seq<char>) -> Seq<
    char,
>
    recommends
        has_field(fields, name),
        parts.len() >= fields.len(),
{
    parts[lookup_idx(fields, name)]
}

pub proof fn lemma_lookup_idx(fields: Seq<Seq<char>>, name: Seq<char>)
    ensures
        -1 <= lookup_idx(fields, name) < fields.len(),
        lookup_idx(fields, name) >= 0 ==> fields[lookup_idx(fields, name)] == name,
        has_field(fields, name) <==> exists|i: int| 0 <= i < fields.len() && fields[i] == name,
    decreases fields.len(),
{
    if fields.len() > 0 {
        if fields.last() == name {
            assert(fields[fields.len() - 1] == name);
        } else {
            lemma_lookup_idx(fields.drop_last(), name);
            if has_field(fields, name) {
                let i = choose|i: int|
                    0 <= i < fields.drop_last().len() && fields.drop_last()[i] == name;
                assert(fields[i] == name);
            }
            if exists|i: int| 0 <= i < fields.len() && fields[i] == name {
                let i = choose|i: int| 0 <= i < fields.len() && fields[i] == name;
                assert(i != fields.len() - 1);
                assert(fields.drop_last()[i] == name);
            }
        }
    }
}

/// The index of the last entry of `fields` equal to `name`.
fn find_last(fields: &[&str], name: &str) -> (r: Option<usize>)
    ensures
        match r {
            Some(i) => i == lookup_idx(str_views(fields@), name@),
            None => lookup_idx(str_views(fields@), name@) == -1,
        },
{
    let ghost fv = str_views(fields@);
    let mut k: usize = fields.len();
    proof {
        assert(fv.take(k as int) =~~= fv);
    }
    while k > 0
        invariant
            k <= fields@.len(),
            fv == str_views(fields@),
            lookup_idx(fv, name@) == lookup_idx(fv.take(k as int), name@),
        decreases k,
    {
        if crate::text::str_eq(fields[k - 1], name) {
            proof {
                assert(fv.take(k as int).last() == fv[k - 1]);
                assert(fv[k - 1] == name@);
            }
            return Some(k - 1);
        }
        proof {
            assert(fv.take(k as int).last() == fv[k - 1]);
            assert(fv.take(k as int).drop_last() =~~= fv.take(k - 1));
        }
        k = k - 1;
    }
    proof {
        assert(fv.take(0).len() == 0);
    }
    None
}

/// The index of a field that the schema is required to contain.
fn must_index(fields: &[&str], name: &str) -> (i: usize)
    requires
        has_field(str_views(fields@), name@),
    ensures
        i == lookup_idx(str_views(fields@), name@),
        i < fields@.len(),
{
    proof {
        lemma_lookup_idx(str_views(fields@), name@);
    }
    match find_last(fields, name) {
        Some(i) => i,
        None => vstd::pervasive::unreached(),
    }
}

/// The field names that the parser requires the schema to carry; their
/// absence is a configuration defect, not a data error.
pub open spec fn schema_ok(fields: Seq<Seq<char>>) -> bool {
    &&& has_field(fields, "jobid"@)
    &&& has_field(fields, "ArrayJobID"@)
    &&& has_field(fields, "ArrayTaskID"@)
    &&& has_field(fields, "name"@)
    &&& has_field(fields, "state"@)
    &&& has_field(fields, "statecompact"@)
    &&& has_field(fields, "username"@)
    &&& has_field(fields, "timeused"@)
    &&& has_field(fields, "tres-alloc"@)
    &&& has_field(fields, "tres-per-node"@)
    &&& has_field(fields, "partition"@)
    &&& has_field(fields, "NodeList"@)
    &&& has_field(fields, "command"@)
    &&& has_field(fields, "stdout"@)
    &&& has_field(fields, "stderr"@)
    &&& has_field(fields, "WorkDir"@)
}

/// Whether `fields` carries every name the parser requires; `false`
/// signals that the schema and the output-format string have drifted
/// apart, which callers must treat as a configuration defect.
pub fn schema_is_complete(fields: &[&str]) -> (r: bool)
    ensures
        r == schema_ok(str_views(fields@)),
{
    find_last(fields, "jobid").is_some() && find_last(fields, "ArrayJobID").is_some()
        && find_last(fields, "ArrayTaskID").is_some() && find_last(fields, "name").is_some()
        && find_last(fields, "state").is_some() && find_last(fields, "statecompact").is_some()
        && find_last(fields, "username").is_some() && find_last(fields, "timeused").is_some()
        && find_last(fields, "tres-alloc").is_some() && find_last(
        fields,
        "tres-per-node",
    ).is_some() && find_last(fields, "partition").is_some() && find_last(
        fields,
        "NodeList",
    ).is_some() && find_last(fields, "command").is_some() && find_last(fields, "stdout").is_some()
        && find_last(fields, "stderr").is_some() && find_last(fields, "WorkDir").is_some()
}

/// The per-job values the resolver substitutes into a filename pattern.
pub struct ResolveContext {
    pub array_job_id: String,
    pub array_task_id: String,
    pub job_id: String,
    pub nodelist: String,
    pub username: String,
    pub name: String,
    pub working_dir: String,
}

/// The mathematical content of a `ResolveContext`.
pub ghost struct ResolveCtxView {
    pub array_job_id: Seq<char>,
    pub array_task_id: Seq<char>,
    pub job_id: Seq<char>,
    pub nodelist: Seq<char>,
    pub username: Seq<char>,
    pub name: Seq<char>,
    pub working_dir: Seq<char>,
}

impl View for ResolveContext {
    type V = ResolveCtxView;

    open spec fn view(&self) -> ResolveCtxView {
        ResolveCtxView {
            array_job_id: self.array_job_id@,
            array_task_id: self.array_task_id@,
            job_id: self.job_id@,
            nodelist: self.nodelist@,
            username: self.username@,
            name: self.name@,
            working_dir: self.working_dir@,
        }
    }
}

/// An array-task id normalized as the scheduler does it: the sentinel
/// `"N/A"` of a non-array job becomes the scheduler's fixed numeric
/// stand-in for "no array task".
pub open spec fn norm_task_id(a: Seq<char>) -> Seq<char> {
    if a == "N/A"@ {
        "4294967294"@
    } else {
        a
    }
}

/// The characters that may follow `%` in a filename pattern.
pub open spec fn is_escape(c: char) -> bool {
    c == '%' || c == 'A' || c == 'a' || c == 'J' || c == 'j' || c == 'N' || c == 'n' || c == 's'
        || c == 't' || c == 'u' || c == 'x'
}

/// The first entry of a node list split on `','`: the prefix up to the
/// first comma, the whole list when it has none.
pub open spec fn first_host(h: Seq<char>) -> Seq<char>
    decreases h.len(),
{
    if h.len() == 0 {
        h
    } else if h[0] == ',' {
        Seq::<char>::empty()
    } else {
        seq![h[0]] + first_host(h.drop_first())
    }
}

/// What one escape stands for.
pub open spec fn replacement(c: char, ctx: ResolveCtxView) -> Seq<char>
    recommends
        is_escape(c),
{
    if c == '%' {
        "%"@
    } else if c == 'A' {
        ctx.array_job_id
    } else if c == 'a' {
        norm_task_id(ctx.array_task_id)
    } else if c == 'J' || c == 'j' {
        ctx.job_id
    } else if c == 'N' {
        first_host(ctx.nodelist)
    } else if c == 'n' {
        "0"@
    } else if c == 's' {
        "batch"@
    } else if c == 't' {
        "0"@
    } else if c == 'u' {
        ctx.username
    } else {
        ctx.name
    }
}

/// Left-to-right expansion of the `%`-escapes of `t`: each occurrence of
/// `%` followed by an escape character is replaced, every other character
/// is kept.
pub open spec fn subst(t: Seq<char>, ctx: ResolveCtxView) -> Seq<char>
    decreases t.len(),
{
    if t.len() < 2 {
        t
    } else if t[0] == '%' && is_escape(t[1]) {
        replacement(t[1], ctx) + subst(t.skip(2), ctx)
    } else {
        seq![t[0]] + subst(t.skip(1), ctx)
    }
}

/// `p` joined onto the directory `wd`: an absolute `p` stands alone, and
/// a separator is added only where `wd` does not already end in one.
pub open spec fn join_path(wd: Seq<char>, p: Seq<char>) -> Seq<char> {
    if p.len() > 0 && p[0] == '/' {
        p
    } else if wd.len() == 0 {
        p
    } else if wd.last() == '/' {
        wd + p
    } else {
        wd + "/"@ + p
    }
}

/// The template the resolver actually substitutes: an empty template
/// falls back to the scheduler's default naming convention under the
/// working directory, keyed by plain job id for non-array jobs and by
/// array job id and task id otherwise.
pub open spec fn effective_template(t: Seq<char>, ctx: ResolveCtxView) -> Seq<char> {
    if t.len() == 0 {
        if norm_task_id(ctx.array_task_id) == "4294967294"@ {
            join_path(ctx.working_dir, "slurm-%J.out"@)
        } else {
            join_path(ctx.working_dir, "slurm-%A_%a.out"@)
        }
    } else {
        t
    }
}

/// What resolving a filename pattern returns: absent exactly when the
/// effective template is the scheduler's `"(null)"` sentinel, otherwise
/// the substituted template joined onto the working directory.
pub open spec fn resolve_spec(t: Seq<char>, ctx: ResolveCtxView) -> Option<Seq<char>> {
    let eff = effective_template(t, ctx);
    if eff == "(null)"@ {
        None
    } else {
        Some(join_path(ctx.working_dir, subst(eff, ctx)))
    }
}

proof fn lemma_first_host_prefix(h: Seq<char>, i: int)
    requires
        0 <= i <= h.len(),
        forall|k: int| 0 <= k < i ==> h[k] != ',',
        i < h.len() ==> h[i] == ',',
    ensures
        first_host(h) == h.take(i),
    decreases i,
{
    if i == 0 {
        assert(h.take(0) =~= Seq::<char>::empty());
        if h.len() > 0 {
            assert(h[0] == ',');
        } else {
            assert(h =~= Seq::<char>::empty());
        }
    } else {
        lemma_first_host_prefix(h.drop_first(), i - 1);
        assert(seq![h[0]] + h.drop_first().take(i - 1) =~= h.take(i));
    }
}

fn first_host_chars(h: &Vec<char>) -> (r: Vec<char>)
    ensures
        r@ == first_host(h@),
{
    let n = h.len();
    let mut i: usize = 0;
    while i < n && h[i] != ','
        invariant
            n == h@.len(),
            i <= n,
            forall|k: int| 0 <= k < i ==> h@[k] != ',',
        decreases n - i,
    {
        i = i + 1;
    }
    proof {
        lemma_first_host_prefix(h@, i as int);
        assert(h@.take(i as int) =~= h@.subrange(0, i as int));
    }
    crate::text::sub_chars(h, 0, i)
}

fn join_path_chars(wd: &Vec<char>, p: &Vec<char>) -> (r: Vec<char>)
    ensures
        r@ == join_path(wd@, p@),
{
    if p.len() > 0 && p[0] == '/' {
        let r = crate::text::sub_chars(p, 0, p.len());
        proof {
            assert(p@.subrange(0, p@.len() as int) =~= p@);
        }
        r
    } else if wd.len() == 0 {
        let r = crate::text::sub_chars(p, 0, p.len());
        proof {
            assert(p@.subrange(0, p@.len() as int) =~= p@);
        }
        r
    } else if wd[wd.len() - 1] == '/' {
        let mut r = crate::text::sub_chars(wd, 0, wd.len());
        proof {
            assert(wd@.subrange(0, wd@.len() as int) =~= wd@);
        }
        crate::text::push_all(&mut r, p);
        r
    } else {
        let mut r = crate::text::sub_chars(wd, 0, wd.len());
        proof {
            assert(wd@.subrange(0, wd@.len() as int) =~= wd@);
        }
        r.push('/');
        crate::text::push_all(&mut r, p);
        proof {
            reveal_strlit("/");
            assert(wd@.push('/') =~= wd@ + "/"@);
            assert(wd@.push('/') + p@ =~= wd@ + "/"@ + p@);
        }
        r
    }
}

fn is_escape_char(c: char) -> (r: bool)
    ensures
        r == is_escape(c),
{
    c == '%' || c == 'A' || c == 'a' || c == 'J' || c == 'j' || c == 'N' || c == 'n' || c == 's'
        || c == 't' || c == 'u' || c == 'x'
}

fn substitute(t: &Vec<char>, ctx: &ResolveContext) -> (r: Vec<char>)
    ensures
        r@ == subst(t@, ctx@),
{
    let rep_pct = crate::text::str_to_chars("%");
    let rep_aj = crate::text::str_to_chars(ctx.array_job_id.as_str());
    let rep_task = if crate::text::str_eq(ctx.array_task_id.as_str(), "N/A") {
        crate::text::str_to_chars("4294967294")
    } else {
        crate::text::str_to_chars(ctx.array_task_id.as_str())
    };
    let rep_job = crate::text::str_to_chars(ctx.job_id.as_str());
    let nl = crate::text::str_to_chars(ctx.nodelist.as_str());
    let rep_host = first_host_chars(&nl);
    let rep_zero = crate::text::str_to_chars("0");
    let rep_step = crate::text::str_to_chars("batch");
    let rep_user = crate::text::str_to_chars(ctx.username.as_str());
    let rep_name = crate::text::str_to_chars(ctx.name.as_str());
    let n = t.len();
    let mut out: Vec<char> = Vec::new();
    let mut i: usize = 0;
    proof {
        assert(t@.skip(0) =~= t@);
        assert(out@ + subst(t@, ctx@) =~= subst(t@, ctx@));
    }
    while i < n
        invariant
            n == t@.len(),
            i <= n,
            rep_pct@ == "%"@,
            rep_aj@ == ctx@.array_job_id,
            rep_task@ == norm_task_id(ctx@.array_task_id),
            rep_job@ == ctx@.job_id,
            rep_host@ == first_host(ctx@.nodelist),
            rep_zero@ == "0"@,
            rep_step@ == "batch"@,
            rep_user@ == ctx@.username,
            rep_name@ == ctx@.name,
            subst(t@, ctx@) == out@ + subst(t@.skip(i as int), ctx@),
        decreases n - i,
    {
        let ghost old_i = i as int;
        let ghost rem = t@.skip(i as int);
        let ghost old_out = out@;
        let c = t[i];
        if i + 1 < n && c == '%' && is_escape_char(t[i + 1]) {
            let e = t[i + 1];
            proof {
                assert(rem[0] == c);
                assert(rem[1] == e);
                assert(rem.skip(2) =~= t@.skip(old_i + 2));
            }
            if e == '%' {
                crate::text::push_all(&mut out, &rep_pct);
            } else if e == 'A' {
                crate::text::push_all(&mut out, &rep_aj);
            } else if e == 'a' {
                crate::text::push_all(&mut out, &rep_task);
            } else if e == 'J' || e == 'j' {
                crate::text::push_all(&mut out, &rep_job);
            } else if e == 'N' {
                crate::text::push_all(&mut out, &rep_host);
            } else if e == 'n' || e == 't' {
                crate::text::push_all(&mut out, &rep_zero);
            } else if e == 's' {
                crate::text::push_all(&mut out, &rep_step);
            } else if e == 'u' {
                crate::text::push_all(&mut out, &rep_user);
            } else {
                crate::text::push_all(&mut out, &rep_name);
            }
            i = i + 2;
            proof {
                assert(out@ == old_out + replacement(e, ctx@));
                assert(subst(rem, ctx@) == replacement(e, ctx@) + subst(t@.skip(i as int), ctx@));
                assert((old_out + replacement(e, ctx@)) + subst(t@.skip(i as int), ctx@) =~= old_out
                    + (replacement(e, ctx@) + subst(t@.skip(i as int), ctx@)));
            }
        } else {
            out.push(c);
            i = i + 1;
            proof {
                if rem.len() >= 2 {
                    assert(rem[1] == t@[old_i + 1]);
                    assert(!(rem[0] == '%' && is_escape(rem[1])));
                    assert(rem.skip(1) =~= t@.skip(old_i + 1));
                    assert(subst(rem, ctx@) == seq![c] + subst(t@.skip(i as int), ctx@));
                } else {
                    assert(rem =~= seq![c]);
                    assert(t@.skip(i as int) =~= Seq::<char>::empty());
                    assert(subst(rem, ctx@) == rem);
                    assert(subst(Seq::<char>::empty(), ctx@) == Seq::<char>::empty());
                    assert(subst(rem, ctx@) =~= seq![c] + subst(t@.skip(i as int), ctx@));
                }
                assert(out@ =~= old_out + seq![c]);
                assert((old_out + seq![c]) + subst(t@.skip(i as int), ctx@) =~= old_out + (seq![c]
                    + subst(t@.skip(i as int), ctx@)));
            }
        }
    }
    proof {
        assert(t@.skip(n as int) =~= Seq::<char>::empty());
        assert(subst(Seq::<char>::empty(), ctx@) == Seq::<char>::empty());
        assert(out@ + Seq::<char>::empty() =~= out@);
    }
    out
}

impl Job {
    /// Expands the scheduler's `%`-escapes in the filename pattern `path`
    /// and joins the result onto the context's working directory; `None`
    /// exactly when the job has no output destination.
    pub fn resolve_path(path: &str, ctx: &ResolveContext) -> (r: Option<String>)
        ensures
            r is Some <==> resolve_spec(path@, ctx@) is Some,
            r matches Some(s) ==> resolve_spec(path@, ctx@) == Some(s@),
    {
        let wd = crate::text::str_to_chars(ctx.working_dir.as_str());
        let mut t = crate::text::str_to_chars(path);
        if t.len() == 0 {
            let not_array = crate::text::str_eq(ctx.array_task_id.as_str(), "N/A")
                || crate::text::str_eq(ctx.array_task_id.as_str(), "4294967294");
            let base = if not_array {
                crate::text::str_to_chars("slurm-%J.out")
            } else {
                crate::text::str_to_chars("slurm-%A_%a.out")
            };
            t = join_path_chars(&wd, &base);
        }
        proof {
            assert(t@ == effective_template(path@, ctx@));
        }
        if crate::text::chars_eq_str(&t, "(null)") {
            return None;
        }
        let s = substitute(&t, ctx);
        let joined = join_path_chars(&wd, &s);
        Some(crate::text::chars_to_string(&joined))
    }
}

/// The resolver context drawn from a split line: the pieces standing
/// under the schema's identity, host, user, name and directory fields.
pub open spec fn ctx_of(fields: Seq<Seq<char>>, parts: Seq<Seq<char>>) -> ResolveCtxView {
    ResolveCtxView {
        array_job_id: lookup(fields, parts, "ArrayJobID"@),
        array_task_id: lookup(fields, parts, "ArrayTaskID"@),
        job_id: lookup(fields, parts, "jobid"@),
        nodelist: lookup(fields, parts, "NodeList"@),
        username: lookup(fields, parts, "username"@),
        name: lookup(fields, parts, "name"@),
        working_dir: lookup(fields, parts, "WorkDir"@),
    }
}

/// What parsing one line of the listing's output returns. Absent exactly
/// when the line does not split into one piece per field plus the empty
/// piece after the trailing separator; otherwise every record field is
/// the piece standing under its schema name, with the derived fields
/// computed from the sentinels and the resolver as documented on `Job`.
pub open spec fn parse_line_spec(
    line: Seq<char>,
    fields: Seq<Seq<char>>,
    sep: Seq<char>,
) -> Option<JobView>
    recommends
        schema_ok(fields),
{
    let parts = crate::text::split_on(line, sep);
    if parts.len() != fields.len() + 1 {
        None
    } else {
        let ctx = ctx_of(fields, parts);
        Some(
            JobView {
                job_id: lookup(fields, parts, "jobid"@),
                array_id: lookup(fields, parts, "ArrayJobID"@),
                array_step: if lookup(fields, parts, "ArrayTaskID"@) == "N/A"@ {
                    None
                } else {
                    Some(lookup(fields, parts, "ArrayTaskID"@))
                },
                name: lookup(fields, parts, "name"@),
                state: lookup(fields, parts, "state"@),
                state_compact: lookup(fields, parts, "statecompact"@),
                reason: if has_field(fields, "reason"@) && lookup(fields, parts, "reason"@)
                    != "None"@ {
                    Some(lookup(fields, parts, "reason"@))
                } else {
                    None
                },
                user: lookup(fields, parts, "username"@),
                time: lookup(fields, parts, "timeused"@),
                tres: if lookup(fields, parts, "tres-per-node"@) == "N/A"@ {
                    lookup(fields, parts, "tres-alloc"@)
                } else {
                    lookup(fields, parts, "tres-alloc"@) + ","@ + lookup(
                        fields,
                        parts,
                        "tres-per-node"@,
                    )
                },
                partition: lookup(fields, parts, "partition"@),
                nodelist: lookup(fields, parts, "NodeList"@),
                stdout: resolve_spec(lookup(fields, parts, "stdout"@), ctx),
                stderr: resolve_spec(lookup(fields, parts, "stderr"@), ctx),
                command: lookup(fields, parts, "command"@),
            },
        )
    }
}

impl Job {
    /// Parses one line of the listing's output, split on
    /// `output_separator`, against the ordered field schema `fields`.
    /// Returns `None` for a malformed line, which the caller drops;
    /// the schema itself must carry every required field name.
    pub fn from_parts(squeue_l: String, fields: &[&str], output_separator: &str) -> (r: Option<
        Job,
    >)
        requires
            output_separator@.len() > 0,
            schema_ok(str_views(fields@)),
        ensures
            r is Some <==> parse_line_spec(squeue_l@, str_views(fields@), output_separator@)
                is Some,
            r matches Some(j) ==> parse_line_spec(squeue_l@, str_views(fields@), output_separator@)
                == Some(j@),
    {
        let ghost fields_v = str_views(fields@);
        let line = crate::text::str_to_chars(squeue_l.as_str());
        let sep = crate::text::str_to_chars(output_separator);
        let parts = crate::text::split_chars(&line, &sep);
        let ghost parts_v = crate::text::vec_views(parts@);
        proof {
            crate::text::lemma_split_len(line@, sep@);
        }
        if parts.len() - 1 != fields.len() {
            return None;
        }
        let jobid_i = must_index(fields, "jobid");
        let aj_i = must_index(fields, "ArrayJobID");
        let task_i = must_index(fields, "ArrayTaskID");
        let name_i = must_index(fields, "name");
        let state_i = must_index(fields, "state");
        let sc_i = must_index(fields, "statecompact");
        let user_i = must_index(fields, "username");
        let time_i = must_index(fields, "timeused");
        let tres_i = must_index(fields, "tres-alloc");
        let tpn_i = must_index(fields, "tres-per-node");
        let part_i = must_index(fields, "partition");
        let nl_i = must_index(fields, "NodeList");
        let cmd_i = must_index(fields, "command");
        let so_i = must_index(fields, "stdout");
        let se_i = must_index(fields, "stderr");
        let wd_i = must_index(fields, "WorkDir");

        let array_step = if crate::text::chars_eq_str(&parts[task_i], "N/A") {
            None
        } else {
            Some(crate::text::chars_to_string(&parts[task_i]))
        };
        let reason = match find_last(fields, "reason") {
            Some(reason_i) => {
                proof {
                    lemma_lookup_idx(fields_v, "reason"@);
                }
                if crate::text::chars_eq_str(&parts[reason_i], "None") {
                    None
                } else {
                    Some(crate::text::chars_to_string(&parts[reason_i]))
                }
            },
            None => None,
        };
        let cpu = crate::text::chars_to_string(&parts[tres_i]);
        let tres = if crate::text::chars_eq_str(&parts[tpn_i], "N/A") {
            cpu
        } else {
            cpu.concat(",").concat(crate::text::chars_to_string(&parts[tpn_i]).as_str())
        };
        let ctx = ResolveContext {
            array_job_id: crate::text::chars_to_string(&parts[aj_i]),
            array_task_id: crate::text::chars_to_string(&parts[task_i]),
            job_id: crate::text::chars_to_string(&parts[jobid_i]),
            nodelist: crate::text::chars_to_string(&parts[nl_i]),
            username: crate::text::chars_to_string(&parts[user_i]),
            name: crate::text::chars_to_string(&parts[name_i]),
            working_dir: crate::text::chars_to_string(&parts[wd_i]),
        };
        proof {
            assert(ctx@ == ctx_of(fields_v, parts_v));
        }
        let stdout_t = crate::text::chars_to_string(&parts[so_i]);
        let stdout = Job::resolve_path(stdout_t.as_str(), &ctx);
        let stderr_t = crate::text::chars_to_string(&parts[se_i]);
        let stderr = Job::resolve_path(stderr_t.as_str(), &ctx);
        let job = Job {
            job_id: crate::text::chars_to_string(&parts[jobid_i]),
            array_id: crate::text::chars_to_string(&parts[aj_i]),
            array_step,
            name: crate::text::chars_to_string(&parts[name_i]),
            state: crate::text::chars_to_string(&parts[state_i]),
            state_compact: crate::text::chars_to_string(&parts[sc_i]),
            reason,
            user: crate::text::chars_to_string(&parts[user_i]),
            time: crate::text::chars_to_string(&parts[time_i]),
            tres,
            partition: crate::text::chars_to_string(&parts[part_i]),
            nodelist: crate::text::chars_to_string(&parts[nl_i]),
            stdout,
            stderr,
            command: crate::text::chars_to_string(&parts[cmd_i]),
        };
        proof {
            assert(parse_line_spec(squeue_l@, fields_v, output_separator@) == Some(job@));
        }
        Some(job)
    }
}

/// A line whose split-field count differs from the schema's length plus
/// one (the empty piece after the trailing separator) parses to nothing.
pub proof fn lemma_malformed_line_dropped(line: Seq<char>, fields: Seq<Seq<char>>, sep: Seq<char>)
    requires
        crate::text::split_on(line, sep).len() != fields.len() + 1,
    ensures
        parse_line_spec(line, fields, sep) is None,
{
}

/// The composite id of a parsed record: a line carrying the `"N/A"`
/// sentinel for its array-task id yields a record with no array step
/// whose id is the raw job id; any other line yields the array job id
/// joined to the task id by `'_'`.
pub proof fn lemma_composite_id(line: Seq<char>, fields: Seq<Seq<char>>, sep: Seq<char>)
    requires
        schema_ok(fields),
        parse_line_spec(line, fields, sep) is Some,
    ensures
        ({
            let parts = crate::text::split_on(line, sep);
            let j = parse_line_spec(line, fields, sep)->Some_0;
            &&& (lookup(fields, parts, "ArrayTaskID"@) == "N/A"@ ==> j.array_step is None
                && spec_id(j) == lookup(fields, parts, "jobid"@))
            &&& (lookup(fields, parts, "ArrayTaskID"@) != "N/A"@ ==> spec_id(j) == lookup(
                fields,
                parts,
                "ArrayJobID"@,
            ) + "_"@ + lookup(fields, parts, "ArrayTaskID"@))
        }),
{
}

/// The resource merge: the `"N/A"` sentinel in the node-local device
/// allocation leaves `tres` the CPU/memory allocation unchanged; any
/// other value is appended to it after a comma.
pub proof fn lemma_tres_merge(line: Seq<char>, fields: Seq<Seq<char>>, sep: Seq<char>)
    requires
        schema_ok(fields),
        parse_line_spec(line, fields, sep) is Some,
    ensures
        ({
            let parts = crate::text::split_on(line, sep);
            let j = parse_line_spec(line, fields, sep)->Some_0;
            j.tres == if lookup(fields, parts, "tres-per-node"@) == "N/A"@ {
                lookup(fields, parts, "tres-alloc"@)
            } else {
                lookup(fields, parts, "tres-alloc"@) + ","@ + lookup(fields, parts, "tres-per-node"@)
            }
        }),
{
}

/// The reason of a parsed record: kept verbatim unless the scheduler
/// reported the `"None"` sentinel or the schema carries no reason field.
pub proof fn lemma_reason_kept(line: Seq<char>, fields: Seq<Seq<char>>, sep: Seq<char>)
    requires
        schema_ok(fields),
        parse_line_spec(line, fields, sep) is Some,
    ensures
        ({
            let parts = crate::text::split_on(line, sep);
            let j = parse_line_spec(line, fields, sep)->Some_0;
            j.reason == if has_field(fields, "reason"@) && lookup(fields, parts, "reason"@)
                != "None"@ {
                Some(lookup(fields, parts, "reason"@))
            } else {
                None::<Seq<char>>
            }
        }),
{
}

/// The `"(null)"` template resolves to nothing, whatever the context.
pub proof fn lemma_null_template_absent(ctx: ResolveCtxView)
    ensures
        resolve_spec("(null)"@, ctx) is None,
{
    reveal_strlit("(null)");
}

/// Whether `t` contains no placeholder: no `'%'` followed by an escape
/// character.
pub open spec fn no_placeholder(t: Seq<char>) -> bool {
    forall|k: int| 0 <= k < t.len() - 1 ==> !((#[trigger] t[k]) == '%' && is_escape(t[k + 1]))
}

/// Substitution leaves a text without placeholders unchanged.
pub proof fn lemma_subst_no_placeholder(t: Seq<char>, ctx: ResolveCtxView)
    requires
        no_placeholder(t),
    ensures
        subst(t, ctx) == t,
    decreases t.len(),
{
    if t.len() < 2 {
    } else {
        assert(!(t[0] == '%' && is_escape(t[1])));
        assert forall|k: int|
            0 <= k < t.skip(1).len() - 1 implies !((#[trigger] t.skip(1)[k]) == '%' && is_escape(
            t.skip(1)[k + 1],
        )) by {
            assert(t.skip(1)[k] == t[k + 1]);
            assert(t.skip(1)[k + 1] == t[k + 2]);
            assert(!(t[k + 1] == '%' && is_escape(t[k + 2])));
        }
        lemma_subst_no_placeholder(t.skip(1), ctx);
        assert(seq![t[0]] + t.skip(1) =~= t);
    }
}

/// Resolving a template that contains no placeholders returns that
/// template joined onto the working directory, and resolving the result
/// again returns it unchanged. Stated for an absolute working directory
/// free of `'%'`, the scheduler's own convention: a relative working
/// directory would be prefixed once more on the second pass.
pub proof fn lemma_resolve_no_placeholder_idempotent(t: Seq<char>, ctx: ResolveCtxView)
    requires
        t.len() > 0,
        t != "(null)"@,
        no_placeholder(t),
        ctx.working_dir.len() > 0,
        ctx.working_dir[0] == '/',
        forall|k: int| 0 <= k < ctx.working_dir.len() ==> ctx.working_dir[k] != '%',
    ensures
        resolve_spec(t, ctx) == Some(join_path(ctx.working_dir, t)),
        resolve_spec(join_path(ctx.working_dir, t), ctx) == resolve_spec(t, ctx),
{
    let wd = ctx.working_dir;
    lemma_subst_no_placeholder(t, ctx);
    reveal_strlit("(null)");
    reveal_strlit("/");
    let p = join_path(wd, t);
    assert(p.len() > 0);
    assert(p[0] == '/' || p[0] == wd[0]);
    assert(p != "(null)"@);
    assert forall|k: int|
        0 <= k < p.len() - 1 implies !((#[trigger] p[k]) == '%' && is_escape(p[k + 1])) by {
        if t[0] == '/' {
            assert(p[k] == t[k]);
            assert(p[k + 1] == t[k + 1]);
        } else if wd.last() == '/' {
            if k < wd.len() {
                assert(p[k] == wd[k]);
            } else {
                assert(p[k] == t[k - wd.len()]);
                assert(p[k + 1] == t[k + 1 - wd.len()]);
            }
        } else {
            if k < wd.len() {
                assert(p[k] == wd[k]);
            } else if k == wd.len() {
                assert(p[k] == "/"@[0]);
            } else {
                assert(p[k] == t[k - wd.len() - 1]);
                assert(p[k + 1] == t[k - wd.len()]);
            }
        }
    }
    lemma_subst_no_placeholder(p, ctx);
    assert(join_path(wd, p) == p);
}

} // verus!
