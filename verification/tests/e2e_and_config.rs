use psyche::client_config::{identity_key_from_bytes, identity_key_from_hex, IdentityKeyError};
use psyche::client_config::{ConfigError, TrainArgs};
use psyche::client_config::{checkpoint_commit_message, checkpoint_dir_name, checkpoint_step, split_at_commas};
use psyche::e2e::{
    client_container_name, delay_command, e2e_testing_setup, is_client_healthy, plan_new_client, validator_container_name,
    ChaosAction, ContainerStatus, ContainerSummary, DockerTestCleanup, StateFilter,
};
use psyche::text::{i64_to_decimal, u64_to_decimal};

fn args() -> TrainArgs {
    TrainArgs {
        identity_secret_key_path: None,
        bind_p2p_port: None,
        tui: true,
        run_id: "run".to_string(),
        data_parallelism: 1,
        tensor_parallelism: 1,
        micro_batch_size: None,
        write_gradients_dir: None,
        eval_tasks: None,
        eval_fewshot: 0,
        eval_seed: 42,
        eval_task_max_docs: None,
        checkpoint_dir: None,
        hub_repo: None,
        wandb_project: None,
        wandb_run: None,
        wandb_group: None,
        wandb_entity: None,
        write_log: None,
        optim_stats_steps: None,
        grad_accum_in_fp32: false,
        dummy_training_delay_secs: None,
    }
}

#[test]
fn state_filters_match_logged_names() {
    assert!(StateFilter::Warmup.compare_state("Warmup"));
    assert!(StateFilter::RoundTrain.compare_state("RoundTrain"));
    assert!(!StateFilter::RoundTrain.compare_state("RoundWitness"));
    assert!(StateFilter::RoundWitness.compare_state("RoundWitness"));
    assert!(!StateFilter::Warmup.compare_state("warmup"));
}

#[test]
fn chaos_commands() {
    let targets = vec!["a".to_string(), "b".to_string()];
    assert_eq!(ChaosAction::Pause(30).command(&targets), vec!["pause", "--duration", "30s", "a", "b"]);
    assert_eq!(
        ChaosAction::Delay(60, 1000).command(&targets),
        vec!["netem", "--duration", "60s", "delay", "--jitter", "500", "--time", "1000", "a", "b"]
    );
    assert_eq!(ChaosAction::Kill.command(&[]), vec!["kill"]);
    assert_eq!(ChaosAction::Pause(-5).command(&[]), vec!["pause", "--duration", "-5s"]);
}

#[test]
fn setup_and_cleanup_commands() {
    let (cmd, cleanup) = e2e_testing_setup(3, Some("config/x.toml".to_string()));
    assert_eq!(cmd.program, "just");
    assert_eq!(cmd.args, vec!["setup_test_infra", "3"]);
    assert_eq!(cmd.env, vec![("CONFIG_PATH".to_string(), "config/x.toml".to_string())]);
    let (cmd2, _) = e2e_testing_setup(12, None);
    assert_eq!(cmd2.args, vec!["setup_test_infra", "12"]);
    assert!(cmd2.env.is_empty());
    let stop = cleanup.stop_command();
    assert_eq!(stop.program, "just");
    assert_eq!(stop.args, vec!["stop_test_infra"]);
    let _ = DockerTestCleanup;
}

#[test]
fn container_names() {
    assert_eq!(client_container_name(2), "test-psyche-test-client-2");
    assert_eq!(validator_container_name(), "test-psyche-solana-test-validator-1");
}

#[test]
fn decimal_rendering() {
    assert_eq!(u64_to_decimal(0), "0");
    assert_eq!(u64_to_decimal(907), "907");
    assert_eq!(u64_to_decimal(u64::MAX), u64::MAX.to_string());
    assert_eq!(i64_to_decimal(-42), "-42");
    assert_eq!(i64_to_decimal(i64::MIN), i64::MIN.to_string());
}

#[test]
fn wandb_settings_need_an_api_key() {
    let a = args();
    assert!(a.wandb_info("r".to_string(), None).unwrap().is_none());
    let info = a.wandb_info("r".to_string(), Some("k".to_string())).unwrap().unwrap();
    assert_eq!(info.project, "psyche");
    assert_eq!(info.run, "r");
    assert_eq!(info.api_key, "k");
    assert!(info.group.is_none());
    let mut b = args();
    b.wandb_project = Some("p".to_string());
    assert_eq!(b.wandb_info("r".to_string(), None).err(), Some(ConfigError::MissingWandbApiKey));
    let info2 = b.wandb_info("r".to_string(), Some("k".to_string())).unwrap().unwrap();
    assert_eq!(info2.project, "p");
}

#[test]
fn checkpoint_settings() {
    let mut a = args();
    assert!(a.checkpoint_config(None).unwrap().is_none());
    a.checkpoint_dir = Some("dir".to_string());
    let c = a.checkpoint_config(None).unwrap().unwrap();
    assert_eq!(c.checkpoint_dir, "dir");
    assert!(c.hub_upload.is_none());
    a.hub_repo = Some("repo".to_string());
    assert_eq!(a.checkpoint_config(None).err(), Some(ConfigError::MissingHubToken));
    let c2 = a.checkpoint_config(Some("tok".to_string())).unwrap().unwrap();
    let up = c2.hub_upload.unwrap();
    assert_eq!(up.hub_repo, "repo");
    assert_eq!(up.hub_token, "tok");
    a.checkpoint_dir = None;
    assert_eq!(a.checkpoint_config(Some("tok".to_string())).err(), Some(ConfigError::HubRepoWithoutCheckpointDir));
    assert_eq!(
        ConfigError::HubRepoWithoutCheckpointDir.to_string(),
        "--hub-repo was set, but no --checkpoint-dir was passed!"
    );
}

#[test]
fn checkpoint_names() {
    assert_eq!(checkpoint_step(5), 4);
    assert_eq!(checkpoint_dir_name("run", 4), "run-step4");
    assert_eq!(checkpoint_commit_message(12), "step 12");
}

#[test]
fn client_health_by_container_status() {
    assert!(is_client_healthy(None));
    assert!(is_client_healthy(Some(ContainerStatus::Running)));
    assert!(is_client_healthy(Some(ContainerStatus::Paused)));
    assert!(!is_client_healthy(Some(ContainerStatus::Dead)));
    assert!(!is_client_healthy(Some(ContainerStatus::Exited)));
}

#[test]
fn delay_commands() {
    let targets = vec!["c1".to_string()];
    assert_eq!(
        delay_command(10, 250, &targets),
        vec!["netem", "--duration", "10s", "delay", "--jitter", "500", "--time", "250", "c1"]
    );
}

fn summary(name: Option<&str>, state: Option<&str>) -> ContainerSummary {
    ContainerSummary { name: name.map(|s| s.to_string()), state: state.map(|s| s.to_string()) }
}

#[test]
fn new_clients_are_named_after_the_running_ones() {
    let containers = vec![
        summary(Some("/test-psyche-test-client-1"), Some("running")),
        summary(Some("/test-psyche-test-client-2"), Some("exited")),
        summary(Some("//test-psyche-solana-test-validator-1"), Some("running")),
        summary(None, Some("running")),
    ];
    let plan = plan_new_client(&containers);
    assert_eq!(plan.name, "test-psyche-test-client-2");
    assert!(plan.remove_existing);
    let more = vec![
        summary(Some("/test-psyche-test-client-1"), Some("RUNNING")),
        summary(Some("test-psyche-test-client-2"), Some("Running")),
    ];
    let plan2 = plan_new_client(&more);
    assert_eq!(plan2.name, "test-psyche-test-client-3");
    assert!(!plan2.remove_existing);
    let none = plan_new_client(&[]);
    assert_eq!(none.name, "test-psyche-test-client-1");
    assert!(!none.remove_existing);
}

#[test]
fn eval_task_names_split_at_commas() {
    let mut a = args();
    assert!(a.eval_task_names().is_empty());
    a.eval_tasks = Some("hellaswag,mmlu".to_string());
    assert_eq!(a.eval_task_names(), vec!["hellaswag", "mmlu"]);
    assert_eq!(split_at_commas(""), vec![""]);
    assert_eq!(split_at_commas("a,,b,"), vec!["a", "", "b", ""]);
}

#[test]
fn identity_keys_are_read_from_hex_or_bytes() {
    let text = "00112233445566778899aabbccddeeff00112233445566778899AABBCCDDEEFF";
    let key = identity_key_from_hex(text).unwrap();
    assert_eq!(key[0], 0x00);
    assert_eq!(key[1], 0x11);
    assert_eq!(key[15], 0xff);
    assert_eq!(key[31], 0xff);
    assert_eq!(identity_key_from_hex("0a0b"), Err(IdentityKeyError::WrongLength(2)));
    assert_eq!(identity_key_from_hex("0a1"), Err(IdentityKeyError::NotHex));
    assert_eq!(identity_key_from_hex("zz"), Err(IdentityKeyError::NotHex));
    assert_eq!(identity_key_from_bytes(&[7u8; 32]), Ok([7u8; 32]));
    assert_eq!(identity_key_from_bytes(&[7u8; 31]), Err(IdentityKeyError::WrongLength(31)));
}
