//! Plugin tasks (`dsh plugin --profile web add|remove <spec>`): spec
//! validation, the bounded output tail, the board of task views the UI sees
//! (with retention of finished tasks), and the command line and outcome of
//! one run. Running the processes one at a time is the caller's part.

use vstd::prelude::*;
use crate::ids::{is_uuid_v4_text, new_uuid_v4};
use crate::resolve::{DshInvocation, LaunchPlan};
use crate::supervisor::keep_last;
use crate::text::{
    chars_of, debug_quote, debug_str, is_ws, signed_decimal, signed_decimal_of, string_of,
    string_views, str_views, trim, trimmed, eq_chars, char_is_ws,
};

verus! {

/// Output lines kept per task, aligned with the daemon's log tail.
pub const OUTPUT_TAIL_CAP: usize = 500;

/// Finished tasks retained for a window that opens late.
pub const FINISHED_RETAIN: usize = 32;

#[derive(Debug, Clone, Copy, PartialEq, Eq, Structural)]
pub enum PluginTaskKind {
    Install,
    Remove,
}

#[derive(Debug, Clone, Copy, PartialEq, Eq, Structural)]
pub enum PluginTaskStatus {
    Running,
    Done,
    Failed,
}

/// One task as the UI sees it (the `plugins://task` event payload).
#[derive(Debug, Clone)]
pub struct PluginTaskView {
    pub task_id: String,
    pub kind: PluginTaskKind,
    pub spec: String,
    pub status: PluginTaskStatus,
    pub output_tail: Vec<String>,
    pub exit_code: Option<i32>,
}

/// The mathematical value of a [`PluginTaskView`].
pub struct TaskModel {
    pub task_id: Seq<char>,
    pub kind: PluginTaskKind,
    pub spec: Seq<char>,
    pub status: PluginTaskStatus,
    pub output_tail: Seq<Seq<char>>,
    pub exit_code: Option<i32>,
}

impl View for PluginTaskView {
    type V = TaskModel;

    open spec fn view(&self) -> TaskModel {
        TaskModel {
            task_id: self.task_id@,
            kind: self.kind,
            spec: self.spec@,
            status: self.status,
            output_tail: string_views(self.output_tail@),
            exit_code: self.exit_code,
        }
    }
}

/// Characters a spec may not hold: `cmd /c` re-parses the command line on
/// Windows, so shell metacharacters are refused outright.
pub open spec fn is_shell_meta(c: char) -> bool {
    c == '&' || c == '|' || c == '<' || c == '>' || c == '^' || c == '"' || c == '\r' || c == '\n'
}

/// A spec is one argv token: non-empty, no whitespace anywhere, no shell
/// metacharacters.
pub open spec fn spec_ok(s: Seq<char>) -> bool {
    &&& s.len() > 0
    &&& trim(s) == s
    &&& forall|i: int| 0 <= i < s.len() ==> !is_ws(#[trigger] s[i]) && !is_shell_meta(s[i])
}

/// The message for a refused spec.
pub open spec fn spec_error_text(s: Seq<char>) -> Seq<char> {
    if s.len() == 0 || trim(s) != s {
        "spec 为空或含首尾空白"@
    } else {
        "spec 含非法字符："@ + debug_str(s)
    }
}

/// Checks that `spec` is a single safe argv token.
pub fn validate_spec(spec: &str) -> (r: Result<(), String>)
    ensures
        r is Ok <==> spec_ok(spec@),
        r matches Err(m) ==> m@ == spec_error_text(spec@),
{
    let s = chars_of(spec);
    let t = trimmed(s.as_slice());
    if s.len() == 0 || !eq_chars(t.as_slice(), s.as_slice()) {
        return Err(String::from_str("spec 为空或含首尾空白"));
    }
    let mut i: usize = 0;
    while i < s.len()
        invariant
            s@ == spec@,
            s@.len() > 0,
            trim(s@) == s@,
            i <= s@.len(),
            forall|j: int| 0 <= j < i ==> !is_ws(#[trigger] s@[j]) && !is_shell_meta(s@[j]),
        decreases s@.len() - i,
    {
        let c = s[i];
        if char_is_ws(c) || c == '&' || c == '|' || c == '<' || c == '>' || c == '^' || c == '"'
            || c == '\r' || c == '\n' {
            let q = debug_quote(spec);
            let mut m = String::from_str("spec 含非法字符：");
            m.append(q.as_str());
            return Err(m);
        }
        i += 1;
    }
    Ok(())
}

/// A task with `line` appended to its output tail, keeping the last
/// [`OUTPUT_TAIL_CAP`] lines.
pub open spec fn with_line(t: TaskModel, line: Seq<char>) -> TaskModel {
    TaskModel { output_tail: keep_last(t.output_tail.push(line), OUTPUT_TAIL_CAP as nat), ..t }
}

/// Appends a line to the task's output, dropping the oldest beyond
/// [`OUTPUT_TAIL_CAP`].
pub fn push_line(view: &mut PluginTaskView, line: String)
    ensures
        final(view)@ == with_line(old(view)@, line@),
{
    let ghost want = keep_last(old(view)@.output_tail.push(line@), OUTPUT_TAIL_CAP as nat);
    view.output_tail.push(line);
    assert(string_views(view.output_tail@) =~= old(view)@.output_tail.push(line@));
    if view.output_tail.len() > OUTPUT_TAIL_CAP {
        let overflow = view.output_tail.len() - OUTPUT_TAIL_CAP;
        let ghost full = string_views(view.output_tail@);
        let mut kept: Vec<String> = Vec::new();
        let mut i = overflow;
        while i < view.output_tail.len()
            invariant
                full == string_views(view.output_tail@),
                overflow <= i <= view.output_tail@.len(),
                string_views(kept@) == full.subrange(overflow as int, i as int),
            decreases view.output_tail@.len() - i,
        {
            let ghost before = string_views(kept@);
            kept.push(view.output_tail[i].clone());
            assert(string_views(kept@) =~= before.push(full[i as int]));
            assert(full.subrange(overflow as int, i + 1) =~= full.subrange(overflow as int, i as int).push(
                full[i as int],
            ));
            i += 1;
        }
        assert(full.subrange(overflow as int, full.len() as int) =~= want);
        view.output_tail = kept;
    }
}

/// A copy of a list of lines.
fn copy_lines(v: &Vec<String>) -> (r: Vec<String>)
    ensures
        string_views(r@) == string_views(v@),
{
    let mut r: Vec<String> = Vec::new();
    let mut i: usize = 0;
    while i < v.len()
        invariant
            i <= v@.len(),
            string_views(r@) == string_views(v@).take(i as int),
        decreases v@.len() - i,
    {
        let ghost before = string_views(r@);
        r.push(v[i].clone());
        assert(string_views(r@) =~= before.push(v@[i as int]@));
        assert(string_views(v@).take(i + 1) =~= string_views(v@).take(i as int).push(v@[i as int]@));
        i += 1;
    }
    assert(string_views(v@).take(v@.len() as int) =~= string_views(v@));
    r
}

impl PluginTaskView {
    /// A copy with the same value.
    pub fn duplicate(&self) -> (r: PluginTaskView)
        ensures
            r@ == self@,
    {
        PluginTaskView {
            task_id: self.task_id.clone(),
            kind: self.kind,
            spec: self.spec.clone(),
            status: self.status,
            output_tail: copy_lines(&self.output_tail),
            exit_code: self.exit_code,
        }
    }
}


/// Index of the first task with id `id`, or `-1`.
pub open spec fn task_index(vs: Seq<TaskModel>, id: Seq<char>) -> int
    decreases vs.len(),
{
    if vs.len() == 0 {
        -1
    } else if vs[0].task_id == id {
        0
    } else {
        let r = task_index(vs.drop_first(), id);
        if r < 0 {
            -1
        } else {
            r + 1
        }
    }
}

/// The tasks still running, in order.
pub open spec fn running_of(vs: Seq<TaskModel>) -> Seq<TaskModel>
    decreases vs.len(),
{
    if vs.len() == 0 {
        seq![]
    } else {
        (if vs[0].status == PluginTaskStatus::Running {
            seq![vs[0]]
        } else {
            seq![]
        }) + running_of(vs.drop_first())
    }
}

/// The finished tasks (done or failed), in order.
pub open spec fn finished_of(vs: Seq<TaskModel>) -> Seq<TaskModel>
    decreases vs.len(),
{
    if vs.len() == 0 {
        seq![]
    } else {
        (if vs[0].status != PluginTaskStatus::Running {
            seq![vs[0]]
        } else {
            seq![]
        }) + finished_of(vs.drop_first())
    }
}

/// `vs` without its first `k` finished tasks.
pub open spec fn drop_oldest_finished(vs: Seq<TaskModel>, k: nat) -> Seq<TaskModel>
    decreases vs.len(),
{
    if vs.len() == 0 {
        vs
    } else if k > 0 && vs[0].status != PluginTaskStatus::Running {
        drop_oldest_finished(vs.drop_first(), (k - 1) as nat)
    } else {
        seq![vs[0]] + drop_oldest_finished(vs.drop_first(), k)
    }
}

/// Retention: only the newest [`FINISHED_RETAIN`] finished tasks stay.
pub open spec fn retain(vs: Seq<TaskModel>) -> Seq<TaskModel> {
    let f = finished_of(vs).len();
    drop_oldest_finished(
        vs,
        if f > FINISHED_RETAIN {
            (f - FINISHED_RETAIN) as nat
        } else {
            0
        },
    )
}

/// `vs` with the first task of id `id` (if any) changed by `f`.
pub open spec fn update_task(vs: Seq<TaskModel>, id: Seq<char>, f: spec_fn(TaskModel) -> TaskModel) -> Seq<TaskModel> {
    let i = task_index(vs, id);
    if i < 0 {
        vs
    } else {
        vs.update(i, f(vs[i]))
    }
}

/// A task marked finished with `status` and `exit_code`, its last output line
/// being `line`.
pub open spec fn finished_task(
    t: TaskModel,
    status: PluginTaskStatus,
    exit_code: Option<i32>,
    line: Seq<char>,
) -> TaskModel {
    TaskModel { status, exit_code, ..with_line(t, line) }
}

/// What `finish` leaves: the task updated, then retention applied.
pub open spec fn after_finish(
    vs: Seq<TaskModel>,
    id: Seq<char>,
    status: PluginTaskStatus,
    exit_code: Option<i32>,
    line: Seq<char>,
) -> Seq<TaskModel> {
    retain(update_task(vs, id, |t: TaskModel| finished_task(t, status, exit_code, line)))
}

pub open spec fn tails_bounded(vs: Seq<TaskModel>) -> bool {
    forall|i: int| 0 <= i < vs.len() ==> (#[trigger] vs[i]).output_tail.len() <= OUTPUT_TAIL_CAP
}

pub open spec fn task_views(v: Seq<PluginTaskView>) -> Seq<TaskModel> {
    v.map_values(|t: PluginTaskView| t@)
}

proof fn lemma_task_index(vs: Seq<TaskModel>, id: Seq<char>)
    ensures
        -1 <= task_index(vs, id) < vs.len(),
        task_index(vs, id) >= 0 ==> vs[task_index(vs, id)].task_id == id,
        forall|j: int| 0 <= j < vs.len() && (task_index(vs, id) < 0 || j < task_index(vs, id))
            ==> (#[trigger] vs[j]).task_id != id,
    decreases vs.len(),
{
    if vs.len() > 0 {
        lemma_task_index(vs.drop_first(), id);
        assert forall|j: int| 0 < j < vs.len() implies #[trigger] vs[j] == vs.drop_first()[j - 1] by {}
    }
}

/// Retention never drops a running task, and keeps them in order.
pub proof fn lemma_drop_keeps_running(vs: Seq<TaskModel>, k: nat)
    ensures
        running_of(drop_oldest_finished(vs, k)) == running_of(vs),
    decreases vs.len(),
{
    if vs.len() > 0 {
        lemma_drop_keeps_running(vs.drop_first(), if k > 0 && vs[0].status != PluginTaskStatus::Running {
            (k - 1) as nat
        } else {
            k
        });
        if !(k > 0 && vs[0].status != PluginTaskStatus::Running) {
            let x = seq![vs[0]] + drop_oldest_finished(vs.drop_first(), k);
            assert(x.drop_first() =~= drop_oldest_finished(vs.drop_first(), k));
        }
    }
}

/// Retention drops exactly the oldest `k` finished tasks.
pub proof fn lemma_drop_finished(vs: Seq<TaskModel>, k: nat)
    requires
        k <= finished_of(vs).len(),
    ensures
        finished_of(drop_oldest_finished(vs, k)) == finished_of(vs).skip(k as int),
    decreases vs.len(),
{
    if vs.len() == 0 {
        assert(finished_of(vs).skip(0) =~= finished_of(vs));
    } else if k > 0 && vs[0].status != PluginTaskStatus::Running {
        lemma_drop_finished(vs.drop_first(), (k - 1) as nat);
        assert(finished_of(vs).skip(k as int) =~= finished_of(vs.drop_first()).skip(k - 1));
    } else {
        let rest = vs.drop_first();
        if vs[0].status == PluginTaskStatus::Running {
            lemma_drop_finished(rest, k);
        } else {
            lemma_drop_finished(rest, 0);
            assert(finished_of(rest).skip(0) =~= finished_of(rest));
            assert(finished_of(vs).skip(0) =~= finished_of(vs));
        }
        let x = seq![vs[0]] + drop_oldest_finished(rest, k);
        assert(x.drop_first() =~= drop_oldest_finished(rest, k));
    }
}

proof fn lemma_drop_tails(vs: Seq<TaskModel>, k: nat)
    requires
        tails_bounded(vs),
    ensures
        tails_bounded(drop_oldest_finished(vs, k)),
    decreases vs.len(),
{
    if vs.len() > 0 {
        let rest = vs.drop_first();
        assert forall|i: int| 0 <= i < rest.len() implies (#[trigger] rest[i]).output_tail.len()
            <= OUTPUT_TAIL_CAP by {
            assert(rest[i] == vs[i + 1]);
        }
        if k > 0 && vs[0].status != PluginTaskStatus::Running {
            lemma_drop_tails(rest, (k - 1) as nat);
        } else {
            lemma_drop_tails(rest, k);
            let x = seq![vs[0]] + drop_oldest_finished(rest, k);
            assert forall|i: int| 0 <= i < x.len() implies (#[trigger] x[i]).output_tail.len()
                <= OUTPUT_TAIL_CAP by {
                if i > 0 {
                    assert(x[i] == drop_oldest_finished(rest, k)[i - 1]);
                }
            }
        }
    }
}

/// After retention at most [`FINISHED_RETAIN`] finished tasks remain: the
/// newest ones, in order; every running task remains, in order.
pub proof fn lemma_retention(vs: Seq<TaskModel>)
    ensures
        running_of(retain(vs)) == running_of(vs),
        finished_of(retain(vs)) == keep_last(finished_of(vs), FINISHED_RETAIN as nat),
        finished_of(retain(vs)).len() <= FINISHED_RETAIN,
{
    let f = finished_of(vs).len();
    let k: nat = if f > FINISHED_RETAIN {
        (f - FINISHED_RETAIN) as nat
    } else {
        0
    };
    lemma_drop_keeps_running(vs, k);
    lemma_drop_finished(vs, k);
    if k == 0 {
        assert(finished_of(vs).skip(0) =~= finished_of(vs));
    }
}

/// The error when no task id can be minted.
pub open spec fn task_id_failure_text() -> Seq<char> {
    "无法生成任务 id：系统随机源不可用"@
}

/// The tasks the UI lists: submitted tasks in order, finished tasks pruned to
/// the newest [`FINISHED_RETAIN`].
pub struct TaskBoard {
    views: Vec<PluginTaskView>,
}

impl View for TaskBoard {
    type V = Seq<TaskModel>;

    closed spec fn view(&self) -> Seq<TaskModel> {
        task_views(self.views@)
    }
}

/// What the board keeps at all times: every output tail holds at most
/// [`OUTPUT_TAIL_CAP`] lines and at most [`FINISHED_RETAIN`] finished tasks
/// are kept.
pub open spec fn board_ok(vs: Seq<TaskModel>) -> bool {
    &&& tails_bounded(vs)
    &&& finished_of(vs).len() <= FINISHED_RETAIN
}

/// Position of the first view with id `task_id`.
fn find_view(views: &Vec<PluginTaskView>, task_id: &String) -> (r: Option<usize>)
    ensures
        match r {
            Some(i) => task_index(task_views(views@), task_id@) == i && i < views@.len(),
            None => task_index(task_views(views@), task_id@) < 0,
        },
{
    let ghost vs = task_views(views@);
    proof {
        lemma_task_index(vs, task_id@);
    }
    let mut i: usize = 0;
    while i < views.len()
        invariant
            vs == task_views(views@),
            i <= views@.len(),
            -1 <= task_index(vs, task_id@) < vs.len(),
            task_index(vs, task_id@) >= 0 ==> vs[task_index(vs, task_id@)].task_id == task_id@,
            forall|j: int| 0 <= j < vs.len() && (task_index(vs, task_id@) < 0 || j < task_index(vs, task_id@))
                ==> (#[trigger] vs[j]).task_id != task_id@,
            task_index(vs, task_id@) < 0 || i <= task_index(vs, task_id@),
        decreases views@.len() - i,
    {
        assert(vs[i as int] == views@[i as int]@);
        if views[i].task_id == *task_id {
            return Some(i);
        }
        i += 1;
    }
    None
}

/// `views` without the oldest finished views beyond [`FINISHED_RETAIN`].
fn pruned(views: Vec<PluginTaskView>) -> (r: Vec<PluginTaskView>)
    requires
        tails_bounded(task_views(views@)),
    ensures
        task_views(r@) == retain(task_views(views@)),
        board_ok(task_views(r@)),
{
    let ghost u = task_views(views@);
    let mut finished: usize = 0;
    let mut i: usize = 0;
    assert(u.skip(0) =~= u);
    while i < views.len()
        invariant
            u == task_views(views@),
            i <= u.len(),
            finished + finished_of(u.skip(i as int)).len() == finished_of(u).len(),
            finished <= i,
        decreases u.len() - i,
    {
        assert(u.skip(i as int).drop_first() =~= u.skip(i + 1));
        assert(u.skip(i as int)[0] == views@[i as int]@);
        if views[i].status != PluginTaskStatus::Running {
            finished += 1;
        }
        i += 1;
    }
    assert(u.skip(i as int) =~= Seq::<TaskModel>::empty());
    let mut remove: usize = if finished > FINISHED_RETAIN {
        finished - FINISHED_RETAIN
    } else {
        0
    };
    let ghost k0: nat = remove as nat;
    let mut rest = views;
    let mut out: Vec<PluginTaskView> = Vec::new();
    assert(task_views(out@) =~= Seq::<TaskModel>::empty());
    while rest.len() > 0
        invariant
            task_views(out@) + drop_oldest_finished(task_views(rest@), remove as nat)
                == drop_oldest_finished(u, k0),
        decreases rest@.len(),
    {
        let ghost rv = task_views(rest@);
        let t = rest.remove(0);
        assert(task_views(rest@) =~= rv.drop_first());
        assert(rv[0] == t@);
        if remove > 0 && t.status != PluginTaskStatus::Running {
            remove -= 1;
        } else {
            let ghost before = task_views(out@);
            out.push(t);
            assert(task_views(out@) =~= before.push(rv[0]));
            assert(before + (seq![rv[0]] + drop_oldest_finished(rv.drop_first(), remove as nat))
                =~= task_views(out@) + drop_oldest_finished(rv.drop_first(), remove as nat));
        }
    }
    assert(task_views(out@) =~= drop_oldest_finished(u, k0));
    proof {
        lemma_retention(u);
        lemma_drop_tails(u, k0);
    }
    out
}

impl TaskBoard {
    #[verifier::type_invariant]
    spec fn well_formed(&self) -> bool {
        board_ok(self@)
    }

    pub fn new() -> (b: TaskBoard)
        ensures
            b@ == Seq::<TaskModel>::empty(),
    {
        let b = TaskBoard { views: Vec::new() };
        assert(b@ =~= Seq::<TaskModel>::empty());
        b
    }

    /// All tasks, in submission order.
    pub fn list(&self) -> (r: Vec<PluginTaskView>)
        ensures
            task_views(r@) == self@,
            board_ok(self@),
    {
        proof {
            use_type_invariant(self);
        }
        let mut r: Vec<PluginTaskView> = Vec::new();
        let mut i: usize = 0;
        while i < self.views.len()
            invariant
                i <= self.views@.len(),
                task_views(r@) == self@.take(i as int),
            decreases self.views@.len() - i,
        {
            let ghost before = task_views(r@);
            r.push(self.views[i].duplicate());
            assert(task_views(r@) =~= before.push(self.views@[i as int]@));
            assert(self@.take(i + 1) =~= self@.take(i as int).push(self.views@[i as int]@));
            i += 1;
        }
        assert(self@.take(self.views@.len() as int) =~= self@);
        r
    }

    /// Registers a new running task for `spec` under a fresh random id, and
    /// returns its view (for the event sent to the UI). A spec that is not a
    /// single safe argv token is refused, and so is any spec when no id can be
    /// minted (the operating system's random source failed); then nothing
    /// changes.
    pub fn submit(&mut self, kind: PluginTaskKind, spec: String) -> (r: Result<PluginTaskView, String>)
        ensures
            board_ok(final(self)@),
            r is Ok ==> spec_ok(spec@),
            match r {
                Ok(v) => {
                    &&& final(self)@ == old(self)@.push(v@)
                    &&& is_uuid_v4_text(v@.task_id)
                    &&& v@.kind == kind
                    &&& v@.spec == spec@
                    &&& v@.status == PluginTaskStatus::Running
                    &&& v@.output_tail == Seq::<Seq<char>>::empty()
                    &&& v@.exit_code is None
                },
                Err(m) => {
                    &&& final(self)@ == old(self)@
                    &&& !spec_ok(spec@) ==> m@ == spec_error_text(spec@)
                    &&& spec_ok(spec@) ==> m@ == task_id_failure_text()
                },
            },
    {
        proof {
            use_type_invariant(&*self);
        }
        match validate_spec(spec.as_str()) {
            Err(m) => return Err(m),
            Ok(()) => {},
        }
        let task_id = match new_uuid_v4() {
            Some(id) => id,
            None => return Err(String::from_str("无法生成任务 id：系统随机源不可用")),
        };
        let view = PluginTaskView {
            task_id,
            kind,
            spec,
            status: PluginTaskStatus::Running,
            output_tail: Vec::new(),
            exit_code: None,
        };
        assert(view@.output_tail =~= Seq::<Seq<char>>::empty());
        let ev = view.duplicate();
        let ghost before = self@;
        let mut views: Vec<PluginTaskView> = Vec::new();
        std::mem::swap(&mut views, &mut self.views);
        views.push(view);
        assert(task_views(views@) =~= before.push(ev@));
        proof {
            lemma_finished_push_running(before, ev@);
            assert forall|i: int| 0 <= i < before.push(ev@).len() implies (#[trigger] before.push(
                ev@,
            )[i]).output_tail.len() <= OUTPUT_TAIL_CAP by {
                if i < before.len() {
                    assert(before.push(ev@)[i] == before[i]);
                }
            }
        }
        self.views = views;
        Ok(ev)
    }

    /// Appends an output line to the first task with id `task_id`, returning
    /// its updated view; `None` (and no change) when there is no such task.
    pub fn push_output(&mut self, task_id: &str, line: String) -> (r: Option<PluginTaskView>)
        ensures
            board_ok(final(self)@),
            final(self)@ == update_task(old(self)@, task_id@, |t: TaskModel| with_line(t, line@)),
            match r {
                Some(v) => task_index(old(self)@, task_id@) >= 0 && v@ == final(self)@[task_index(
                    old(self)@,
                    task_id@,
                )],
                None => task_index(old(self)@, task_id@) < 0,
            },
    {
        proof {
            use_type_invariant(&*self);
        }
        let id = task_id.to_owned();
        let ghost before = self@;
        let ghost f = |t: TaskModel| with_line(t, line@);
        let mut views: Vec<PluginTaskView> = Vec::new();
        std::mem::swap(&mut views, &mut self.views);
        assert(task_views(views@) == before);
        let ev = match find_view(&views, &id) {
            None => None,
            Some(i) => {
                let mut v = views.remove(i);
                push_line(&mut v, line);
                let ev = v.duplicate();
                views.insert(i, v);
                assert(task_views(views@) =~= before.update(i as int, f(before[i as int])));
                proof {
                    lemma_finished_update_same_status(before, i as int, f(before[i as int]));
                }
                Some(ev)
            },
        };
        assert(task_views(views@) == update_task(before, id@, f));
        proof {
            lemma_update_tails(before, id@, f);
            if task_index(before, id@) < 0 {
                assert(task_views(views@) == before);
            }
        }
        self.views = views;
        ev
    }

    /// Marks the first task with id `task_id` finished with `status` and
    /// `exit_code`, appending `line` to its output, and returns its updated
    /// view (`None` when there is no such task). Then prunes the oldest
    /// finished tasks beyond [`FINISHED_RETAIN`].
    pub fn finish(
        &mut self,
        task_id: &str,
        status: PluginTaskStatus,
        exit_code: Option<i32>,
        line: String,
    ) -> (r: Option<PluginTaskView>)
        ensures
            board_ok(final(self)@),
            final(self)@ == after_finish(old(self)@, task_id@, status, exit_code, line@),
            match r {
                Some(v) => task_index(old(self)@, task_id@) >= 0 && v@ == finished_task(
                    old(self)@[task_index(old(self)@, task_id@)],
                    status,
                    exit_code,
                    line@,
                ),
                None => task_index(old(self)@, task_id@) < 0,
            },
    {
        proof {
            use_type_invariant(&*self);
        }
        let id = task_id.to_owned();
        let ghost before = self@;
        let ghost f = |t: TaskModel| finished_task(t, status, exit_code, line@);
        let mut views: Vec<PluginTaskView> = Vec::new();
        std::mem::swap(&mut views, &mut self.views);
        assert(task_views(views@) == before);
        let ev = match find_view(&views, &id) {
            None => None,
            Some(i) => {
                let mut v = views.remove(i);
                push_line(&mut v, line);
                v.status = status;
                v.exit_code = exit_code;
                let ev = v.duplicate();
                views.insert(i, v);
                assert(task_views(views@) =~= before.update(i as int, f(before[i as int])));
                Some(ev)
            },
        };
        assert(task_views(views@) == update_task(before, id@, f));
        proof {
            lemma_update_tails(before, id@, f);
        }
        self.views = pruned(views);
        ev
    }
}

proof fn lemma_finished_push_running(vs: Seq<TaskModel>, t: TaskModel)
    requires
        t.status == PluginTaskStatus::Running,
    ensures
        finished_of(vs.push(t)) == finished_of(vs),
    decreases vs.len(),
{
    if vs.len() == 0 {
        assert(vs.push(t).drop_first() =~= Seq::<TaskModel>::empty());
        assert(vs.push(t)[0] == t);
        assert(finished_of(Seq::<TaskModel>::empty()) =~= Seq::<TaskModel>::empty());
        assert(finished_of(vs.push(t)) =~= finished_of(vs));
    } else {
        assert(vs.push(t).drop_first() =~= vs.drop_first().push(t));
        assert(vs.push(t)[0] == vs[0]);
        lemma_finished_push_running(vs.drop_first(), t);
        assert(finished_of(vs.push(t)) =~= finished_of(vs));
    }
}

proof fn lemma_finished_update_same_status(vs: Seq<TaskModel>, i: int, t: TaskModel)
    requires
        0 <= i < vs.len(),
        t.status == vs[i].status,
    ensures
        finished_of(vs.update(i, t)).len() == finished_of(vs).len(),
    decreases vs.len(),
{
    if i > 0 {
        assert(vs.update(i, t).drop_first() =~= vs.drop_first().update(i - 1, t));
        lemma_finished_update_same_status(vs.drop_first(), i - 1, t);
    } else {
        assert(vs.update(i, t).drop_first() =~= vs.drop_first());
    }
}

proof fn lemma_update_tails(vs: Seq<TaskModel>, id: Seq<char>, f: spec_fn(TaskModel) -> TaskModel)
    requires
        tails_bounded(vs),
        forall|t: TaskModel| t.output_tail.len() <= OUTPUT_TAIL_CAP ==> (#[trigger] f(t)).output_tail.len()
            <= OUTPUT_TAIL_CAP,
    ensures
        tails_bounded(update_task(vs, id, f)),
{
    lemma_task_index(vs, id);
    let i = task_index(vs, id);
    if i >= 0 {
        assert(vs[i].output_tail.len() <= OUTPUT_TAIL_CAP);
        assert forall|j: int| 0 <= j < vs.len() implies (#[trigger] vs.update(i, f(vs[i]))[j]).output_tail.len()
            <= OUTPUT_TAIL_CAP by {
            if j != i {
                assert(vs[j].output_tail.len() <= OUTPUT_TAIL_CAP);
            }
        }
    }
}


/// The `dsh plugin` verb for a task kind.
pub open spec fn verb_text(kind: PluginTaskKind) -> Seq<char> {
    match kind {
        PluginTaskKind::Install => "add"@,
        PluginTaskKind::Remove => "remove"@,
    }
}

/// The arguments after the invocation's prefix:
/// `plugin --profile web <verb> <spec>`.
pub open spec fn task_args(kind: PluginTaskKind, spec: Seq<char>) -> Seq<Seq<char>> {
    seq!["plugin"@, "--profile"@, "web"@, verb_text(kind), spec]
}

/// The command that runs one task through the resolved dsh invocation.
pub fn task_plan(invocation: &DshInvocation, kind: PluginTaskKind, spec: &str) -> (r: LaunchPlan)
    ensures
        r.program@ == invocation.program@,
        string_views(r.args@) == string_views(invocation.prefix@) + task_args(kind, spec@),
{
    let verb: &str = match kind {
        PluginTaskKind::Install => "add",
        PluginTaskKind::Remove => "remove",
    };
    let args: [&str; 5] = ["plugin", "--profile", "web", verb, spec];
    let r = invocation.plan(args.as_slice());
    assert(str_views(args@) =~= task_args(kind, spec@));
    r
}

/// The first output line of a task: `"$ "` followed by the command's display
/// form.
pub fn command_line(plan: &LaunchPlan) -> (r: String)
    ensures
        r@ == "$ "@ + plan.program@ + " "@ + crate::text::join(string_views(plan.args@), " "@),
{
    let d = plan.display();
    let mut r = String::from_str("$ ");
    r.append(d.as_str());
    r
}

/// How one task's process ended, as the runner observed it.
#[derive(Debug, Clone)]
pub enum TaskOutcome {
    /// The process ran and exited; `code` is `None` when killed by a signal.
    Exited { success: bool, code: Option<i32> },
    /// The process could not be started; the operating system's message.
    SpawnFailed(String),
    /// Waiting for the process failed; the operating system's message.
    WaitFailed(String),
}

/// `format!("{:?}", code)` for an `Option<i32>`.
pub open spec fn exit_code_debug(code: Option<i32>) -> Seq<char> {
    match code {
        Some(c) => "Some("@ + signed_decimal(c as int) + ")"@,
        None => "None"@,
    }
}

/// The status, exit code and last output line a task finishes with.
pub open spec fn outcome_spec(o: TaskOutcome) -> (PluginTaskStatus, Option<i32>, Seq<char>) {
    match o {
        TaskOutcome::Exited { success, code } => if success {
            (PluginTaskStatus::Done, code, "完成"@)
        } else {
            (PluginTaskStatus::Failed, code, "退出码 "@ + exit_code_debug(code))
        },
        TaskOutcome::SpawnFailed(e) => (PluginTaskStatus::Failed, None, "启动失败："@ + e@),
        TaskOutcome::WaitFailed(e) => (PluginTaskStatus::Failed, None, "等待退出失败："@ + e@),
    }
}

/// The status, exit code and last output line for how a task ended.
pub fn task_outcome(o: &TaskOutcome) -> (r: (PluginTaskStatus, Option<i32>, String))
    ensures
        (r.0, r.1, r.2@) == outcome_spec(*o),
{
    match o {
        TaskOutcome::Exited { success, code } => {
            if *success {
                (PluginTaskStatus::Done, *code, String::from_str("完成"))
            } else {
                let mut m = String::from_str("退出码 ");
                match code {
                    Some(c) => {
                        m.append("Some(");
                        let d = signed_decimal_of(*c as i64);
                        let ds = string_of(d.as_slice());
                        m.append(ds.as_str());
                        m.append(")");
                    },
                    None => {
                        m.append("None");
                    },
                }
                (PluginTaskStatus::Failed, *code, m)
            }
        },
        TaskOutcome::SpawnFailed(e) => {
            let mut m = String::from_str("启动失败：");
            m.append(e.as_str());
            (PluginTaskStatus::Failed, None, m)
        },
        TaskOutcome::WaitFailed(e) => {
            let mut m = String::from_str("等待退出失败：");
            m.append(e.as_str());
            (PluginTaskStatus::Failed, None, m)
        },
    }
}


/// A spec is accepted exactly when it is nonempty and holds no whitespace and
/// none of `& | < > ^ "`, carriage return or line feed; every other character
/// (`#`, `:`, `@`, `/`, ...) is allowed.
pub proof fn lemma_spec_characters(s: Seq<char>)
    ensures
        spec_ok(s) <==> (s.len() > 0 && forall|i: int|
            0 <= i < s.len() ==> !is_ws(#[trigger] s[i]) && s[i] != '&' && s[i] != '|' && s[i] != '<'
                && s[i] != '>' && s[i] != '^' && s[i] != '"' && s[i] != '\r' && s[i] != '\n'),
{
    if s.len() > 0 && forall|i: int|
        0 <= i < s.len() ==> !is_ws(#[trigger] s[i]) && s[i] != '&' && s[i] != '|' && s[i] != '<'
            && s[i] != '>' && s[i] != '^' && s[i] != '"' && s[i] != '\r' && s[i] != '\n' {
        assert(!is_ws(s[s.len() - 1]));
        assert(s.last() == s[s.len() - 1]);
        assert(crate::text::trim_end(s) == s);
        assert(!is_ws(s[0]));
        assert(crate::text::trim_start(s) == s);
    }
}

} // verus!
