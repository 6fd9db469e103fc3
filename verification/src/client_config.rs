use vstd::prelude::*;
use crate::text::{decimal, u64_to_decimal};

verus! {

/// Where and as whom a client logs to Weights & Biases.
pub struct WandBInfo {
    pub project: String,
    pub run: String,
    pub group: Option<String>,
    pub entity: Option<String>,
    pub api_key: String,
}

/// Where checkpoints are uploaded, and with which token.
pub struct HubUploadInfo {
    pub hub_repo: String,
    pub hub_token: String,
}

/// Where checkpoints are written, and whether they are uploaded.
pub struct CheckpointConfig {
    pub hub_upload: Option<HubUploadInfo>,
    pub checkpoint_dir: String,
}

/// Where checkpoints are saved, and whether they are uploaded.
pub struct CheckpointSaveInfo {
    pub hub_upload: Option<HubUploadInfo>,
    pub checkpoint_dir: String,
}

/// How a client orders its batches: at random, or by a fixed seed.
#[derive(Clone, Copy, Debug)]
pub enum BatchShuffleType {
    Random,
    Fixed([u8; 32]),
}

/// A gossiped payload could not be put up for download.
#[derive(Clone, Copy, Debug, PartialEq, Eq, Structural)]
pub enum ApplyMessageError {
    StartDownloadBlob,
}

/// An early witness could not be sent.
#[derive(Clone, Copy, Debug, PartialEq, Eq, Structural)]
pub enum OpportunisticWitnessError {
    Send,
}

/// Applying results on a trainer thread failed: the request could not be sent, the
/// reply never came, or the reply was of another kind.
#[derive(Clone, Debug)]
pub enum ApplyDistroResultError {
    SendOptimize,
    ReceiveResult,
    RecievedWrongResultType(String),
}

/// The client's terminal interface.
#[derive(Clone, Copy, Debug)]
pub struct ClientTUI;

/// How far a download has got.
#[derive(Clone, Copy, Debug)]
pub struct UIDownloadProgress {
    pub downloaded: u64,
    pub total: u64,
}

impl Default for UIDownloadProgress {
    fn default() -> (r: Self)
        ensures
            r.downloaded == 0 && r.total == 0,
    {
        UIDownloadProgress { downloaded: 0, total: 0 }
    }
}

/// What a data server sends a client: a challenge to answer, or training data.
pub enum ServerToClientMessage {
    Challenge([u8; 32]),
    TrainingData(TrainingData),
}

/// A sample of training data and its id.
pub struct TrainingData {
    pub data_id: usize,
    pub raw_data: Vec<i32>,
}

/// A client's answer to a data server's challenge.
pub struct ChallengeResponse(pub Vec<u8>);

/// A client's command-line settings for training.
pub struct TrainArgs {
    pub identity_secret_key_path: Option<String>,
    pub bind_p2p_port: Option<u16>,
    pub tui: bool,
    pub run_id: String,
    pub data_parallelism: usize,
    pub tensor_parallelism: usize,
    pub micro_batch_size: Option<usize>,
    pub write_gradients_dir: Option<String>,
    pub eval_tasks: Option<String>,
    pub eval_fewshot: usize,
    pub eval_seed: u64,
    pub eval_task_max_docs: Option<usize>,
    pub checkpoint_dir: Option<String>,
    pub hub_repo: Option<String>,
    pub wandb_project: Option<String>,
    pub wandb_run: Option<String>,
    pub wandb_group: Option<String>,
    pub wandb_entity: Option<String>,
    pub write_log: Option<String>,
    pub optim_stats_steps: Option<u32>,
    pub grad_accum_in_fp32: bool,
    pub dummy_training_delay_secs: Option<u64>,
}

/// Settings that do not fit together.
#[derive(Clone, Copy, Debug, PartialEq, Eq, Structural)]
pub enum ConfigError {
    /// A Weights & Biases setting was given but no API key.
    MissingWandbApiKey,
    /// A hub repository and a checkpoint directory were given but no hub token.
    MissingHubToken,
    /// A hub repository was given but no checkpoint directory.
    HubRepoWithoutCheckpointDir,
}

/// The message of a settings error.
pub open spec fn config_error_text(e: ConfigError) -> Seq<char> {
    match e {
        ConfigError::MissingWandbApiKey => "WANDB_API_KEY environment variable must be set for wandb integration"@,
        ConfigError::MissingHubToken => "hub-repo and checkpoint-dir set, but no HF_TOKEN env variable."@,
        ConfigError::HubRepoWithoutCheckpointDir => "--hub-repo was set, but no --checkpoint-dir was passed!"@,
    }
}

impl ConfigError {
    /// The error's message.
    pub fn to_string(&self) -> (s: String)
        ensures
            s@ == config_error_text(*self),
    {
        match self {
            ConfigError::MissingWandbApiKey => "WANDB_API_KEY environment variable must be set for wandb integration".to_string(),
            ConfigError::MissingHubToken => "hub-repo and checkpoint-dir set, but no HF_TOKEN env variable.".to_string(),
            ConfigError::HubRepoWithoutCheckpointDir => "--hub-repo was set, but no --checkpoint-dir was passed!".to_string(),
        }
    }
}

/// An optional string's contents.
pub open spec fn opt_text(o: Option<String>) -> Option<Seq<char>> {
    match o {
        Some(s) => Some(s@),
        None => None,
    }
}

fn clone_opt(o: &Option<String>) -> (r: Option<String>)
    ensures
        opt_text(r) == opt_text(*o),
{
    match o {
        Some(s) => Some(s.clone()),
        None => None,
    }
}

impl TrainArgs {
    /// The Weights & Biases settings, given the API key from the environment. With a
    /// key: the project (default `psyche`), the run (default `run_name`), the group,
    /// the entity and the key. Without one: none, unless a Weights & Biases setting
    /// was given, which is an error.
    pub fn wandb_info(&self, run_name: String, api_key: Option<String>) -> (r: Result<Option<WandBInfo>, ConfigError>)
        ensures
            match api_key {
                Some(key) => r matches Ok(Some(info)) && {
                    &&& info.project@ == (match self.wandb_project {
                        Some(p) => p@,
                        None => "psyche"@,
                    })
                    &&& info.run@ == (match self.wandb_run {
                        Some(p) => p@,
                        None => run_name@,
                    })
                    &&& opt_text(info.group) == opt_text(self.wandb_group)
                    &&& opt_text(info.entity) == opt_text(self.wandb_entity)
                    &&& info.api_key@ == key@
                },
                None => if self.wandb_entity is Some || self.wandb_run is Some || self.wandb_project is Some
                    || self.wandb_group is Some {
                    r matches Err(e) && e == ConfigError::MissingWandbApiKey
                } else {
                    r matches Ok(None)
                },
            },
    {
        match api_key {
            Some(key) => {
                let project = match &self.wandb_project {
                    Some(p) => p.clone(),
                    None => "psyche".to_string(),
                };
                let run = match &self.wandb_run {
                    Some(p) => p.clone(),
                    None => run_name,
                };
                Ok(Some(WandBInfo {
                    project,
                    run,
                    group: clone_opt(&self.wandb_group),
                    entity: clone_opt(&self.wandb_entity),
                    api_key: key,
                }))
            },
            None => {
                if self.wandb_entity.is_some() || self.wandb_run.is_some() || self.wandb_project.is_some()
                    || self.wandb_group.is_some() {
                    Err(ConfigError::MissingWandbApiKey)
                } else {
                    Ok(None)
                }
            },
        }
    }

    /// The checkpoint settings, given the hub token from the environment: with a
    /// checkpoint directory, checkpoints go there, and are uploaded to the hub
    /// repository when one is given (which then needs the token); a hub repository
    /// without a checkpoint directory is an error; neither means no checkpoints.
    pub fn checkpoint_config(&self, hub_token: Option<String>) -> (r: Result<Option<CheckpointConfig>, ConfigError>)
        ensures
            match (hub_token, self.hub_repo, self.checkpoint_dir) {
                (Some(t), Some(repo), Some(dir)) => r matches Ok(Some(c)) && {
                    &&& c.checkpoint_dir@ == dir@
                    &&& c.hub_upload matches Some(up) && up.hub_repo@ == repo@ && up.hub_token@ == t@
                },
                (None, Some(_), Some(_)) => r matches Err(e) && e == ConfigError::MissingHubToken,
                (_, Some(_), None) => r matches Err(e) && e == ConfigError::HubRepoWithoutCheckpointDir,
                (_, None, Some(dir)) => r matches Ok(Some(c)) && c.checkpoint_dir@ == dir@ && c.hub_upload is None,
                (_, None, None) => r matches Ok(None),
            },
    {
        match (&hub_token, &self.hub_repo, &self.checkpoint_dir) {
            (Some(token), Some(repo), Some(dir)) => Ok(Some(CheckpointConfig {
                checkpoint_dir: dir.clone(),
                hub_upload: Some(HubUploadInfo { hub_repo: repo.clone(), hub_token: token.clone() }),
            })),
            (None, Some(_), Some(_)) => Err(ConfigError::MissingHubToken),
            (_, Some(_), None) => Err(ConfigError::HubRepoWithoutCheckpointDir),
            (_, None, Some(dir)) => Ok(Some(CheckpointConfig { checkpoint_dir: dir.clone(), hub_upload: None })),
            (_, None, None) => Ok(None),
        }
    }
}

/// The step a cooldown checkpoint belongs to: the last finished step, one before the
/// coordinator's current step.
pub fn checkpoint_step(progress_step: u32) -> (r: u32)
    requires
        progress_step >= 1,
    ensures
        r == progress_step - 1,
{
    progress_step - 1
}

/// The directory, under the checkpoint directory, that a checkpoint of `step` of
/// run `run_id` is saved in: `<run_id>-step<step>`.
pub fn checkpoint_dir_name(run_id: &str, step: u32) -> (name: String)
    ensures
        name@ == run_id@ + "-step"@ + decimal(step as nat),
{
    let mut name = run_id.to_owned();
    name.append("-step");
    let digits = u64_to_decimal(step as u64);
    name.append(digits.as_str());
    name
}

/// The commit message of a checkpoint upload: `step <step>`.
pub fn checkpoint_commit_message(step: u32) -> (msg: String)
    ensures
        msg@ == "step "@ + decimal(step as nat),
{
    let mut msg = "step ".to_owned();
    let digits = u64_to_decimal(step as u64);
    msg.append(digits.as_str());
    msg
}

/// The comma-separated parts of a string, empty parts included (an empty string is
/// one empty part).
pub open spec fn split_commas(s: Seq<char>) -> Seq<Seq<char>>
    decreases s.len(),
{
    if s.len() == 0 {
        seq![Seq::<char>::empty()]
    } else {
        let r = split_commas(s.drop_last());
        if s.last() == ',' {
            r.push(Seq::<char>::empty())
        } else {
            r.update(r.len() - 1, r.last().push(s.last()))
        }
    }
}

/// The strings' contents.
pub open spec fn string_texts(v: Seq<String>) -> Seq<Seq<char>> {
    Seq::new(v.len(), |i: int| v[i]@)
}

/// Splits a string at its commas.
pub fn split_at_commas(s: &str) -> (parts: Vec<String>)
    ensures
        string_texts(parts@) == split_commas(s@),
{
    let n = s.unicode_len();
    let mut parts: Vec<String> = Vec::new();
    let mut start: usize = 0;
    let mut i: usize = 0;
    assert(s@.take(0) =~= Seq::<char>::empty());
    assert(string_texts(parts@).push(s@.subrange(0, 0)) =~= seq![Seq::<char>::empty()]);
    while i < n
        invariant
            n == s@.len(),
            start <= i <= n,
            split_commas(s@.take(i as int)) == string_texts(parts@).push(s@.subrange(start as int, i as int)),
        decreases n - i,
    {
        let c = s.get_char(i);
        let ghost r = split_commas(s@.take(i as int));
        assert(s@.take(i + 1).drop_last() =~= s@.take(i as int));
        assert(s@.take(i + 1).last() == c);
        if c == ',' {
            let part = s.substring_char(start, i);
            let ghost before = parts@;
            parts.push(part.to_owned());
            assert(string_texts(parts@) =~= string_texts(before).push(s@.subrange(start as int, i as int)));
            start = i + 1;
            assert(string_texts(parts@) == r);
            assert(s@.subrange(start as int, i + 1) =~= Seq::<char>::empty());
            assert(split_commas(s@.take(i + 1)) == r.push(Seq::<char>::empty()));
            assert(split_commas(s@.take(i + 1)) =~= string_texts(parts@).push(s@.subrange(start as int, i + 1)));
        } else {
            assert(s@.subrange(start as int, i + 1) =~= s@.subrange(start as int, i as int).push(c));
            assert(r.len() - 1 == string_texts(parts@).len());
            assert(r.last() == s@.subrange(start as int, i as int));
            assert(r.update(r.len() - 1, r.last().push(c)) =~= string_texts(parts@).push(s@.subrange(start as int, i + 1)));
            assert(split_commas(s@.take(i + 1)) =~= string_texts(parts@).push(s@.subrange(start as int, i + 1)));
        }
        i += 1;
    }
    let last = s.substring_char(start, n);
    let ghost before = parts@;
    parts.push(last.to_owned());
    assert(s@.take(n as int) =~= s@);
    assert(string_texts(parts@) =~= string_texts(before).push(s@.subrange(start as int, n as int)));
    parts
}

impl TrainArgs {
    /// The names of the evaluation tasks asked for: the comma-separated parts of
    /// the setting, none without it.
    pub fn eval_task_names(&self) -> (names: Vec<String>)
        ensures
            match self.eval_tasks {
                Some(t) => string_texts(names@) == split_commas(t@),
                None => names@.len() == 0,
            },
    {
        match &self.eval_tasks {
            Some(t) => split_at_commas(t.as_str()),
            None => Vec::new(),
        }
    }
}

/// Why a client's identity key could not be read.
#[derive(Clone, Copy, Debug, PartialEq, Eq, Structural)]
pub enum IdentityKeyError {
    /// The raw key is not hexadecimal text (odd length or a non-hex character).
    NotHex,
    /// The key does not have 32 bytes; it has this many.
    WrongLength(usize),
}

/// The value of a hexadecimal digit, upper or lower case.
pub open spec fn hex_value(c: char) -> Option<nat> {
    let x = c as int;
    if 48 <= x <= 57 {
        Some((x - 48) as nat)
    } else if 97 <= x <= 102 {
        Some((x - 87) as nat)
    } else if 65 <= x <= 70 {
        Some((x - 55) as nat)
    } else {
        None
    }
}

/// Hexadecimal text: an even number of hex digits.
pub open spec fn is_hex_text(s: Seq<char>) -> bool {
    &&& s.len() % 2 == 0
    &&& forall|i: int| 0 <= i < s.len() ==> (#[trigger] hex_value(s[i])) is Some
}

/// The bytes that hexadecimal text spells, two digits per byte, high digit first;
/// none for text that is not hexadecimal.
pub open spec fn hex_decoded(s: Seq<char>) -> Option<Seq<u8>> {
    if is_hex_text(s) {
        Some(Seq::new(s.len() / 2, |i: int| (hex_value(s[2 * i]).unwrap() * 16 + hex_value(s[2 * i + 1]).unwrap()) as u8))
    } else {
        None
    }
}

/// Calls `hex::decode` on the text's bytes. Claimed: it fails exactly when the
/// text has an odd length or a character other than `0-9`, `a-f`, `A-F` (any
/// other character, non-ASCII ones included, gives a byte that is no hex digit),
/// and otherwise gives one byte per digit pair, high digit first.
#[verifier::external_body]
fn hex_decode(s: &str) -> (r: Option<Vec<u8>>)
    ensures
        match hex_decoded(s@) {
            None => r is None,
            Some(b) => r matches Some(v) && v@ == b,
        },
{
    hex::decode(s).ok()
}

/// A 32-byte identity key from raw bytes (such as a key file's contents).
pub fn identity_key_from_bytes(bytes: &[u8]) -> (r: Result<[u8; 32], IdentityKeyError>)
    ensures
        bytes@.len() == 32 ==> (r matches Ok(k) && k@ == bytes@),
        bytes@.len() != 32 ==> r == Err::<[u8; 32], IdentityKeyError>(IdentityKeyError::WrongLength(bytes@.len() as usize)),
{
    if bytes.len() != 32 {
        return Err(IdentityKeyError::WrongLength(bytes.len()));
    }
    let mut key = [0u8; 32];
    let mut i: usize = 0;
    while i < 32
        invariant
            i <= 32,
            bytes@.len() == 32,
            forall|j: int| 0 <= j < i ==> key@[j] == bytes@[j],
        decreases 32 - i,
    {
        key.set(i, bytes[i]);
        i += 1;
    }
    assert(key@ =~= bytes@);
    Ok(key)
}

/// A 32-byte identity key from its hexadecimal text (such as the raw key given in
/// the environment): the text must be hexadecimal and spell exactly 32 bytes.
pub fn identity_key_from_hex(raw: &str) -> (r: Result<[u8; 32], IdentityKeyError>)
    ensures
        match hex_decoded(raw@) {
            None => r == Err::<[u8; 32], IdentityKeyError>(IdentityKeyError::NotHex),
            Some(b) => if b.len() == 32 {
                r matches Ok(k) && k@ == b
            } else {
                r == Err::<[u8; 32], IdentityKeyError>(IdentityKeyError::WrongLength(b.len() as usize))
            },
        },
{
    match hex_decode(raw) {
        None => Err(IdentityKeyError::NotHex),
        Some(v) => identity_key_from_bytes(v.as_slice()),
    }
}

} // verus!
