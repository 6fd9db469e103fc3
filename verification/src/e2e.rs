use vstd::prelude::*;
use crate::text::{decimal, i64_to_decimal, signed_decimal, u64_to_decimal};

verus! {

/// Name prefix of the test clients' containers.
pub const CLIENT_CONTAINER_PREFIX: &'static str = "test-psyche-test-client";

/// Name prefix of the test validator's containers.
pub const VALIDATOR_CONTAINER_PREFIX: &'static str = "test-psyche-solana-test-validator";

/// The run states a test waits for, by the names the clients log.
#[derive(Clone, Copy, Debug, PartialEq, Eq, Structural)]
pub enum StateFilter {
    Warmup,
    RoundTrain,
    RoundWitness,
}

/// The logged name of a run state a test waits for.
pub open spec fn filter_name(f: StateFilter) -> Seq<char> {
    match f {
        StateFilter::Warmup => "Warmup"@,
        StateFilter::RoundTrain => "RoundTrain"@,
        StateFilter::RoundWitness => "RoundWitness"@,
    }
}

impl StateFilter {
    /// Whether a logged state name is the one this filter waits for.
    pub fn compare_state(&self, state: &str) -> (r: bool)
        ensures
            r == (state@ == filter_name(*self)),
    {
        let name = match self {
            StateFilter::Warmup => "Warmup".to_owned(),
            StateFilter::RoundTrain => "RoundTrain".to_owned(),
            StateFilter::RoundWitness => "RoundWitness".to_owned(),
        };
        state.to_owned() == name
    }
}

/// Which of the clients' log lines a test watches: state changes or losses.
#[derive(Clone, Copy, Debug, PartialEq, Eq, Structural)]
pub enum JsonFilter {
    StateChange,
    Loss,
}

/// A fault to inject into the test network: pause containers for some seconds,
/// delay their traffic for some seconds by some milliseconds, or kill them.
#[derive(Clone, Copy, Debug, PartialEq, Eq, Structural)]
pub enum ChaosAction {
    Pause(i64),
    Delay(i64, i64),
    Kill,
}

/// The strings' contents.
pub open spec fn texts(v: Seq<String>) -> Seq<Seq<char>> {
    Seq::new(v.len(), |i: int| v[i]@)
}

/// The chaos tool's arguments for an action, before its targets: `pause
/// --duration <s>s`, `netem --duration <s>s delay --jitter 500 --time <ms>`, or
/// `kill`.
pub open spec fn chaos_args(action: ChaosAction) -> Seq<Seq<char>> {
    match action {
        ChaosAction::Pause(secs) => seq!["pause"@, "--duration"@, signed_decimal(secs as int) + "s"@],
        ChaosAction::Delay(secs, millis) => seq![
            "netem"@,
            "--duration"@,
            signed_decimal(secs as int) + "s"@,
            "delay"@,
            "--jitter"@,
            "500"@,
            "--time"@,
            signed_decimal(millis as int),
        ],
        ChaosAction::Kill => seq!["kill"@],
    }
}

impl ChaosAction {
    /// The chaos tool's command line for this action against the targets: the
    /// action's arguments, then the targets.
    pub fn command(&self, targets: &[String]) -> (cmd: Vec<String>)
        ensures
            texts(cmd@) == chaos_args(*self) + texts(targets@),
    {
        let mut cmd: Vec<String> = Vec::new();
        proof {
            reveal_strlit("pause");
            reveal_strlit("--duration");
            reveal_strlit("s");
            reveal_strlit("netem");
            reveal_strlit("delay");
            reveal_strlit("--jitter");
            reveal_strlit("500");
            reveal_strlit("--time");
            reveal_strlit("kill");
        }
        match self {
            ChaosAction::Pause(secs) => {
                cmd.push("pause".to_owned());
                cmd.push("--duration".to_owned());
                let mut d = i64_to_decimal(*secs);
                d.append("s");
                cmd.push(d);
            },
            ChaosAction::Delay(secs, millis) => {
                cmd.push("netem".to_owned());
                cmd.push("--duration".to_owned());
                let mut d = i64_to_decimal(*secs);
                d.append("s");
                cmd.push(d);
                cmd.push("delay".to_owned());
                cmd.push("--jitter".to_owned());
                cmd.push("500".to_owned());
                cmd.push("--time".to_owned());
                cmd.push(i64_to_decimal(*millis));
            },
            ChaosAction::Kill => {
                cmd.push("kill".to_owned());
            },
        }
        let ghost base = texts(cmd@);
        assert(base =~= chaos_args(*self));
        let mut i: usize = 0;
        while i < targets.len()
            invariant
                i <= targets@.len(),
                texts(cmd@) == base + texts(targets@.take(i as int)),
            decreases targets@.len() - i,
        {
            let ghost before = cmd@;
            let t = targets[i].clone();
            cmd.push(t);
            assert(cmd@ == before.push(t));
            assert(texts(cmd@) =~= texts(before).push(targets@[i as int]@));
            assert(texts(targets@.take(i + 1)) =~= texts(targets@.take(i as int)).push(targets@[i as int]@));
            i += 1;
        }
        assert(targets@.take(targets@.len() as int) =~= targets@);
        cmd
    }
}

/// A command to run: the program, its arguments and extra environment variables.
pub struct InfraCommand {
    pub program: String,
    pub args: Vec<String>,
    pub env: Vec<(String, String)>,
}

/// The contents of an environment's pairs.
pub open spec fn env_texts(v: Seq<(String, String)>) -> Seq<(Seq<char>, Seq<char>)> {
    Seq::new(v.len(), |i: int| (v[i].0@, v[i].1@))
}

/// Stops the test infrastructure when a test is done.
pub struct DockerTestCleanup;

impl DockerTestCleanup {
    /// The command that stops the test infrastructure: `just stop_test_infra`.
    pub fn stop_command(&self) -> (c: InfraCommand)
        ensures
            c.program@ == "just"@,
            texts(c.args@) == seq!["stop_test_infra"@],
            c.env@.len() == 0,
    {
        let mut args: Vec<String> = Vec::new();
        args.push("stop_test_infra".to_owned());
        assert(texts(args@) =~= seq!["stop_test_infra"@]);
        InfraCommand { program: "just".to_owned(), args, env: Vec::new() }
    }
}

/// Sets up the test network of `init_num_clients` clients: the command that brings
/// it up (`just setup_test_infra <n>`, with `CONFIG_PATH` set to the config when one
/// is given), and the guard that later takes it down.
pub fn e2e_testing_setup(init_num_clients: usize, config: Option<String>) -> (r: (InfraCommand, DockerTestCleanup))
    ensures
        r.0.program@ == "just"@,
        texts(r.0.args@) == seq!["setup_test_infra"@, decimal(init_num_clients as nat)],
        match config {
            Some(path) => env_texts(r.0.env@) == seq![("CONFIG_PATH"@, path@)],
            None => r.0.env@.len() == 0,
        },
{
    let mut args: Vec<String> = Vec::new();
    args.push("setup_test_infra".to_owned());
    args.push(u64_to_decimal(init_num_clients as u64));
    assert(texts(args@) =~= seq!["setup_test_infra"@, decimal(init_num_clients as nat)]);
    let mut env: Vec<(String, String)> = Vec::new();
    match config {
        Some(path) => {
            env.push(("CONFIG_PATH".to_owned(), path));
            assert(env_texts(env@) =~= seq![("CONFIG_PATH"@, path@)]);
        },
        None => {},
    }
    (InfraCommand { program: "just".to_owned(), args, env }, DockerTestCleanup)
}

/// The container name of test client `n`: the client prefix, a hyphen and `n`.
pub fn client_container_name(n: u64) -> (name: String)
    ensures
        name@ == CLIENT_CONTAINER_PREFIX@ + "-"@ + decimal(n as nat),
{
    let mut name = CLIENT_CONTAINER_PREFIX.to_owned();
    name.append("-");
    let digits = u64_to_decimal(n);
    name.append(digits.as_str());
    name
}

/// The container name of the test validator.
pub fn validator_container_name() -> (name: String)
    ensures
        name@ == VALIDATOR_CONTAINER_PREFIX@ + "-1"@,
{
    let mut name = VALIDATOR_CONTAINER_PREFIX.to_owned();
    name.append("-1");
    name
}

/// The state a container reports.
#[derive(Clone, Copy, Debug, PartialEq, Eq, Structural)]
pub enum ContainerStatus {
    Empty,
    Created,
    Running,
    Paused,
    Restarting,
    Removing,
    Exited,
    Dead,
}

/// A test client is healthy unless its container is dead or has exited (an unknown
/// state counts as healthy).
pub fn is_client_healthy(status: Option<ContainerStatus>) -> (r: bool)
    ensures
        r == !(status == Some(ContainerStatus::Dead) || status == Some(ContainerStatus::Exited)),
{
    match status {
        Some(ContainerStatus::Dead) | Some(ContainerStatus::Exited) => false,
        _ => true,
    }
}

/// The chaos tool's command line that delays the targets' traffic:
/// `netem --duration <s>s delay --jitter 500 --time <ms>` and the targets.
pub fn delay_command(duration_secs: u64, delay_millis: u64, targets: &[String]) -> (cmd: Vec<String>)
    ensures
        texts(cmd@) == seq![
            "netem"@,
            "--duration"@,
            decimal(duration_secs as nat) + "s"@,
            "delay"@,
            "--jitter"@,
            "500"@,
            "--time"@,
            decimal(delay_millis as nat),
        ] + texts(targets@),
{
    proof {
        reveal_strlit("netem");
        reveal_strlit("--duration");
        reveal_strlit("s");
        reveal_strlit("delay");
        reveal_strlit("--jitter");
        reveal_strlit("500");
        reveal_strlit("--time");
    }
    let mut cmd: Vec<String> = Vec::new();
    cmd.push("netem".to_owned());
    cmd.push("--duration".to_owned());
    let mut d = u64_to_decimal(duration_secs);
    d.append("s");
    cmd.push(d);
    cmd.push("delay".to_owned());
    cmd.push("--jitter".to_owned());
    cmd.push("500".to_owned());
    cmd.push("--time".to_owned());
    cmd.push(u64_to_decimal(delay_millis));
    let ghost base = texts(cmd@);
    let mut i: usize = 0;
    while i < targets.len()
        invariant
            i <= targets@.len(),
            texts(cmd@) == base + texts(targets@.take(i as int)),
        decreases targets@.len() - i,
    {
        let ghost before = cmd@;
        let t = targets[i].clone();
        cmd.push(t);
        assert(texts(cmd@) =~= texts(before).push(targets@[i as int]@));
        assert(texts(targets@.take(i + 1)) =~= texts(targets@.take(i as int)).push(targets@[i as int]@));
        i += 1;
    }
    assert(targets@.take(targets@.len() as int) =~= targets@);
    cmd
}

/// A listed container: its first name, if it has one, and its state, if known.
pub struct ContainerSummary {
    pub name: Option<String>,
    pub state: Option<String>,
}

/// A name without its leading slashes.
pub open spec fn trim_slashes(s: Seq<char>) -> Seq<char>
    decreases s.len(),
{
    if s.len() > 0 && s[0] == '/' {
        trim_slashes(s.drop_first())
    } else {
        s
    }
}

/// The code of a character's lower-case form, lowering ASCII letters only.
pub open spec fn ascii_lower(c: char) -> u32 {
    if 'A' <= c && c <= 'Z' {
        ((c as u32) + 32) as u32
    } else {
        c as u32
    }
}

/// The strings are equal up to the case of ASCII letters.
pub open spec fn eq_ignore_ascii_case(a: Seq<char>, b: Seq<char>) -> bool {
    a.len() == b.len() && forall|i: int| 0 <= i < a.len() ==> ascii_lower(a[i]) == ascii_lower(b[i])
}

/// The test clients among the containers: their names without leading slashes, and
/// whether each is running, in order.
pub open spec fn client_containers(cs: Seq<(Option<Seq<char>>, Option<Seq<char>>)>) -> Seq<(Seq<char>, bool)>
    decreases cs.len(),
{
    if cs.len() == 0 {
        Seq::empty()
    } else {
        let rest = client_containers(cs.drop_last());
        match cs.last().0 {
            Some(n) => {
                let t = trim_slashes(n);
                if CLIENT_CONTAINER_PREFIX@.is_prefix_of(t) {
                    rest.push((t, cs.last().1 matches Some(st) && eq_ignore_ascii_case(st, "running"@)))
                } else {
                    rest
                }
            },
            None => rest,
        }
    }
}

/// How many of the test clients run.
pub open spec fn running_clients(cs: Seq<(Seq<char>, bool)>) -> nat
    decreases cs.len(),
{
    if cs.len() == 0 {
        0
    } else {
        running_clients(cs.drop_last()) + if cs.last().1 { 1nat } else { 0nat }
    }
}

/// The containers' names and states as the specifications see them.
pub open spec fn summaries(cs: Seq<ContainerSummary>) -> Seq<(Option<Seq<char>>, Option<Seq<char>>)> {
    Seq::new(cs.len(), |i: int| (
        match cs[i].name { Some(n) => Some(n@), None => None },
        match cs[i].state { Some(n) => Some(n@), None => None },
    ))
}

/// Where a new test client goes: the name after the running clients' count, and
/// whether a container of that name exists already and must be removed first.
pub struct NewClientPlan {
    pub name: String,
    pub remove_existing: bool,
}

proof fn lemma_trim_slashes(s: Seq<char>, k: int)
    requires
        0 <= k <= s.len(),
        forall|j: int| 0 <= j < k ==> s[j] == '/',
        k == s.len() || s[k] != '/',
    ensures
        trim_slashes(s) == s.subrange(k, s.len() as int),
    decreases k,
{
    if k == 0 {
        assert(s.subrange(0, s.len() as int) =~= s);
    } else {
        let t = s.drop_first();
        assert forall|j: int| 0 <= j < k - 1 implies t[j] == '/' by {
            assert(s[j + 1] == '/');
        }
        lemma_trim_slashes(t, k - 1);
        assert(t.subrange(k - 1, t.len() as int) =~= s.subrange(k, s.len() as int));
    }
}

/// The name without its leading slashes.
fn trim_leading_slashes(s: &str) -> (r: &str)
    ensures
        r@ == trim_slashes(s@),
{
    let n = s.unicode_len();
    let mut k: usize = 0;
    while k < n && s.get_char(k) == '/'
        invariant
            k <= n == s@.len(),
            forall|j: int| 0 <= j < k ==> s@[j] == '/',
        decreases n - k,
    {
        k += 1;
    }
    proof {
        lemma_trim_slashes(s@, k as int);
    }
    s.substring_char(k, n)
}

/// Whether `s` starts with `prefix`.
fn starts_with(s: &str, prefix: &str) -> (r: bool)
    ensures
        r == prefix@.is_prefix_of(s@),
{
    let n = s.unicode_len();
    let m = prefix.unicode_len();
    if m > n {
        return false;
    }
    let mut i: usize = 0;
    while i < m
        invariant
            i <= m <= n,
            n == s@.len(),
            m == prefix@.len(),
            forall|j: int| 0 <= j < i ==> s@[j] == prefix@[j],
        decreases m - i,
    {
        if s.get_char(i) != prefix.get_char(i) {
            return false;
        }
        i += 1;
    }
    assert(prefix@ =~= s@.subrange(0, m as int));
    true
}

fn lower(c: char) -> (r: u32)
    ensures
        r == ascii_lower(c),
{
    if 'A' <= c && c <= 'Z' {
        (c as u32) + 32
    } else {
        c as u32
    }
}

/// Whether a container state says it runs, whatever the case of its letters.
fn is_running(state: &str) -> (r: bool)
    ensures
        r == eq_ignore_ascii_case(state@, "running"@),
{
    proof {
        reveal_strlit("running");
    }
    let running = "running";
    let n = state.unicode_len();
    if n != running.unicode_len() {
        return false;
    }
    let mut i: usize = 0;
    while i < n
        invariant
            i <= n == state@.len() == running@.len(),
            running@ == "running"@,
            forall|j: int| 0 <= j < i ==> ascii_lower(state@[j]) == ascii_lower(running@[j]),
        decreases n - i,
    {
        if lower(state.get_char(i)) != lower(running.get_char(i)) {
            return false;
        }
        i += 1;
    }
    true
}

/// Plans where a new test client goes, from the containers there are: it is named
/// after the count of running test clients plus one, and an existing container of
/// that name is removed first.
pub fn plan_new_client(containers: &[ContainerSummary]) -> (plan: NewClientPlan)
    requires
        containers@.len() < u64::MAX,
    ensures
        plan.name@ == CLIENT_CONTAINER_PREFIX@ + "-"@ + decimal(running_clients(client_containers(summaries(containers@))) + 1),
        plan.remove_existing == exists|i: int| 0 <= i < client_containers(summaries(containers@)).len()
            && (#[trigger] client_containers(summaries(containers@))[i]).0 == plan.name@,
{
    let mut names: Vec<String> = Vec::new();
    let mut running: u64 = 0;
    let ghost mut listed: Seq<(Seq<char>, bool)> = Seq::empty();
    let mut i: usize = 0;
    while i < containers.len()
        invariant
            i <= containers@.len() < u64::MAX,
            listed == client_containers(summaries(containers@.take(i as int))),
            names@.len() == listed.len(),
            forall|k: int| 0 <= k < listed.len() ==> (#[trigger] names@[k])@ == listed[k].0,
            running as nat == running_clients(listed),
            running <= i,
        decreases containers@.len() - i,
    {
        let ghost prev = summaries(containers@.take(i as int));
        assert(summaries(containers@.take(i + 1)).drop_last() =~= prev);
        match &containers[i].name {
            Some(name) => {
                let trimmed = trim_leading_slashes(name.as_str());
                if starts_with(trimmed, CLIENT_CONTAINER_PREFIX) {
                    let is_up = match &containers[i].state {
                        Some(st) => is_running(st.as_str()),
                        None => false,
                    };
                    names.push(trimmed.to_owned());
                    proof {
                        let old_listed = listed;
                        listed = listed.push((trimmed@, is_up));
                        assert(listed.drop_last() =~= old_listed);
                    }
                    if is_up {
                        running = running + 1;
                    }
                }
            },
            None => {},
        }
        i += 1;
    }
    assert(containers@.take(containers@.len() as int) =~= containers@);
    let name = client_container_name(running + 1);
    let mut exists = false;
    let mut j: usize = 0;
    while j < names.len()
        invariant
            j <= names@.len() == listed.len(),
            forall|k: int| 0 <= k < listed.len() ==> (#[trigger] names@[k])@ == listed[k].0,
            exists == exists|k: int| 0 <= k < j && (#[trigger] listed[k]).0 == name@,
        decreases names@.len() - j,
    {
        if names[j] == name {
            exists = true;
        }
        proof {
            if exists {
                if names@[j as int]@ == name@ {
                    assert(listed[j as int].0 == name@);
                }
            }
        }
        j += 1;
    }
    NewClientPlan { name, remove_existing: exists }
}

} // verus!
