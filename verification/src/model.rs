use vstd::prelude::*;

verus! {

/// A fixed-capacity string of at most `N` bytes, padded with zero bytes.
#[derive(Clone, Copy, Debug)]
pub struct FixedString<const N: usize> {
    pub bytes: [u8; N],
}

impl<const N: usize> FixedString<N> {
    /// The empty string: all bytes zero.
    pub fn new() -> (s: Self)
        ensures
            s.spec_is_empty(),
    {
        let bytes = [0u8; N];
        FixedString { bytes }
    }

    /// The string holds no characters: all its bytes are zero.
    pub open spec fn spec_is_empty(self) -> bool {
        forall|i: int| 0 <= i < N ==> self.bytes@[i] == 0u8
    }

    /// Whether the string holds no characters.
    pub fn is_empty(&self) -> (r: bool)
        ensures
            r == self.spec_is_empty(),
    {
        let mut i: usize = 0;
        while i < N
            invariant
                i <= N,
                self.bytes@.len() == N,
                forall|j: int| 0 <= j < i ==> self.bytes@[j] == 0u8,
            decreases N - i,
        {
            if self.bytes[i] != 0 {
                return false;
            }
            i += 1;
        }
        true
    }
}

/// The model architecture.
#[derive(Clone, Copy, Debug, PartialEq, Eq, Structural)]
pub enum LLMArchitecture {
    HfLlama,
    HfDeepseek,
}

/// The kind of training data.
#[derive(Clone, Copy, Debug, PartialEq, Eq, Structural)]
pub enum LLMTrainingDataType {
    Pretraining,
    Finetuning,
}

/// Width of a token in the training data.
#[derive(Clone, Copy, Debug, PartialEq, Eq, Structural)]
pub enum TokenSize {
    TwoBytes,
    FourBytes,
}

/// Whether and how training data is shuffled.
#[derive(Clone, Copy, Debug)]
pub enum Shuffle {
    DontShuffle,
    Seeded([u8; 32]),
}

/// Where HTTP training data lives.
#[derive(Clone, Copy, Debug)]
pub enum HttpTrainingDataLocation {
    SingleUrl(FixedString<192>),
    NumberedFiles {
        url_template: FixedString<64>,
        start_index: u32,
        n_left_pad_zeros: u8,
        num_files: u32,
    },
    Gcp {
        bucket_name: FixedString<64>,
        /// empty means no filter
        filter_directory: FixedString<192>,
    },
}

/// HTTP training data with its token width and shuffling.
#[derive(Clone, Copy, Debug)]
pub struct HttpLLMTrainingDataLocation {
    pub location: HttpTrainingDataLocation,
    pub token_size_in_bytes: TokenSize,
    pub shuffle: Shuffle,
}

/// Where training data comes from.
#[derive(Clone, Copy, Debug)]
pub enum LLMTrainingDataLocation {
    Dummy,
    Server(FixedString<64>),
    Local(FixedString<192>),
    Http(HttpLLMTrainingDataLocation),
    /// link to a JSON file of weighted locations
    WeightedHttp(FixedString<192>),
}

impl LLMTrainingDataLocation {
    /// The default location: `Dummy`.
    pub fn default() -> (l: Self)
        ensures
            l is Dummy,
    {
        LLMTrainingDataLocation::Dummy
    }
}

/// A Hugging Face repository and optional revision.
#[derive(Clone, Copy, Debug)]
pub struct HubRepo {
    pub repo_id: FixedString<64>,
    pub revision: Option<FixedString<64>>,
}

impl HubRepo {
    /// A repository with an empty id and no revision.
    pub fn dummy() -> (r: Self)
        ensures
            r.repo_id.spec_is_empty(),
            r.revision is None,
    {
        HubRepo { repo_id: FixedString::new(), revision: None }
    }
}

/// Where the model's checkpoint comes from.
#[derive(Clone, Copy, Debug)]
pub enum Checkpoint {
    Ephemeral,
    Dummy(HubRepo),
    Hub(HubRepo),
    P2P(HubRepo),
}

/// The optimizer kind of a run (its numeric hyper-parameters are not part of the
/// coordinator's checks).
#[derive(Clone, Copy, Debug, PartialEq, Eq, Structural)]
pub enum OptimizerKind {
    Dummy,
    AdamW,
    Distro,
}

/// A language model to train.
#[derive(Clone, Copy, Debug)]
pub struct LLM {
    pub architecture: LLMArchitecture,
    pub checkpoint: Checkpoint,
    pub max_seq_len: u32,
    pub data_type: LLMTrainingDataType,
    pub data_location: LLMTrainingDataLocation,
    pub optimizer: OptimizerKind,
}

impl LLM {
    /// A placeholder model: Llama architecture, dummy checkpoint and data, pretraining
    /// with sequences of 2048 tokens, dummy optimizer.
    pub fn dummy() -> (llm: Self)
        ensures
            llm.architecture == LLMArchitecture::HfLlama,
            (llm.checkpoint matches Checkpoint::Dummy(r) && r.repo_id.spec_is_empty() && r.revision is None),
            llm.data_location is Dummy,
            llm.data_type == LLMTrainingDataType::Pretraining,
            llm.max_seq_len == 2048,
            llm.optimizer == OptimizerKind::Dummy,
    {
        LLM {
            architecture: LLMArchitecture::HfLlama,
            checkpoint: Checkpoint::Dummy(HubRepo::dummy()),
            data_location: LLMTrainingDataLocation::default(),
            data_type: LLMTrainingDataType::Pretraining,
            max_seq_len: 2048,
            optimizer: OptimizerKind::Dummy,
        }
    }
}

/// The model a run trains.
#[derive(Clone, Copy, Debug)]
pub enum Model {
    LLM(LLM),
}

/// A data location is unusable: an empty server, URL, URL template or bucket, or no
/// numbered files.
pub open spec fn bad_data_location(l: LLMTrainingDataLocation) -> bool {
    match l {
        LLMTrainingDataLocation::Dummy => false,
        LLMTrainingDataLocation::Server(url) => url.spec_is_empty(),
        LLMTrainingDataLocation::Local(_) => false,
        LLMTrainingDataLocation::Http(h) => match h.location {
            HttpTrainingDataLocation::SingleUrl(url) => url.spec_is_empty(),
            HttpTrainingDataLocation::NumberedFiles { url_template, num_files, .. } =>
                url_template.spec_is_empty() || num_files == 0,
            HttpTrainingDataLocation::Gcp { bucket_name, .. } => bucket_name.spec_is_empty(),
        },
        LLMTrainingDataLocation::WeightedHttp(url) => url.spec_is_empty(),
    }
}

/// A checkpoint is unusable: ephemeral, or a hub/P2P repository with an empty id.
pub open spec fn bad_checkpoint(c: Checkpoint) -> bool {
    match c {
        Checkpoint::Dummy(_) => false,
        Checkpoint::Ephemeral => true,
        Checkpoint::Hub(r) => r.repo_id.spec_is_empty(),
        Checkpoint::P2P(r) => r.repo_id.spec_is_empty(),
    }
}

/// A model passes the check: non-zero sequence length, usable data location and
/// checkpoint, and a real optimizer.
pub open spec fn model_is_valid(m: Model) -> bool {
    match m {
        Model::LLM(llm) => {
            &&& llm.max_seq_len != 0
            &&& !bad_data_location(llm.data_location)
            &&& !bad_checkpoint(llm.checkpoint)
            &&& llm.optimizer != OptimizerKind::Dummy
        },
    }
}

impl Model {
    /// Checks that the model can be trained.
    pub fn check(&self) -> (ok: bool)
        ensures
            ok == model_is_valid(*self),
    {
        match self {
            Model::LLM(llm) => {
                if llm.max_seq_len == 0 {
                    return false;
                }
                let bad_location = match &llm.data_location {
                    LLMTrainingDataLocation::Dummy => false,
                    LLMTrainingDataLocation::Server(url) => url.is_empty(),
                    LLMTrainingDataLocation::Local(_) => false,
                    LLMTrainingDataLocation::Http(h) => match &h.location {
                        HttpTrainingDataLocation::SingleUrl(url) => url.is_empty(),
                        HttpTrainingDataLocation::NumberedFiles { url_template, num_files, .. } =>
                            url_template.is_empty() || *num_files == 0,
                        HttpTrainingDataLocation::Gcp { bucket_name, .. } => bucket_name.is_empty(),
                    },
                    LLMTrainingDataLocation::WeightedHttp(url) => url.is_empty(),
                };
                if bad_location {
                    return false;
                }
                let bad = match &llm.checkpoint {
                    Checkpoint::Dummy(_) => false,
                    Checkpoint::Ephemeral => true,
                    Checkpoint::Hub(r) => r.repo_id.is_empty(),
                    Checkpoint::P2P(r) => r.repo_id.is_empty(),
                };
                if bad {
                    return false;
                }
                match llm.optimizer {
                    OptimizerKind::Dummy => false,
                    OptimizerKind::AdamW => true,
                    OptimizerKind::Distro => true,
                }
            },
        }
    }
}

} // verus!
