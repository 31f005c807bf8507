use claymore::chars_of_str;
use claymore::string_of_chars;
use claymore::config::AssignData;
use claymore::config::KeyConfig;
use claymore::config::ModuleConfig;
use claymore::config::PreprocessStep;
use claymore::orchestrator::Category;
use claymore::orchestrator::Chunk;
use claymore::orchestrator::ModuleRow;
use claymore::orchestrator::OrchestratorError;
use claymore::orchestrator::Store;
use claymore::orchestrator::Template;
use claymore::orchestrator::apply_preprocess;
use claymore::orchestrator::config_from_template;
use claymore::orchestrator::main_prompt;
use claymore::orchestrator::preprocess_prompt;
use claymore::orchestrator::select_assigned_data;
use claymore::status::ModuleStatus;
use claymore::worker::EvoMessage;
use claymore::worker::EvoPayload;
use claymore::worker::DropReason;
use claymore::worker::LlmError;
use claymore::worker::evo_complete;
use claymore::worker::evaluate_complete;
use claymore::worker::prepare_prompt;
use claymore::worker::validate_evo_payload;

fn t(s: &str) -> Vec<char> {
    chars_of_str(s)
}

fn s(v: &Vec<char>) -> String {
    string_of_chars(v)
}

fn basic_config(prompt: &str, topic_value: &str, separator: &str) -> ModuleConfig {
    ModuleConfig {
        prompt: t(prompt),
        input: t(""),
        keys: vec![t("topic")],
        key_configs: vec![KeyConfig {
            key: t("topic"),
            display_name: t("Topic"),
            hint: t(""),
            value: t(topic_value),
        }],
        separator: t(separator),
        preprocess: Vec::new(),
        assign_data: None,
    }
}

fn store_with_module(config: ModuleConfig) -> Store {
    let mut store = Store::new();
    store.modules.push(ModuleRow {
        module_id: 10,
        workspace_id: 20,
        name: t("mod"),
        category: Category::Generator,
        config,
    });
    store
}

fn deliver(store: &mut Store, msg: &EvoMessage, output: &str, group_id: u128) -> bool {
    let prompt = prepare_prompt(&msg.prompt, &msg.input, &msg.reference);
    let _input_metric = claymore::worker::metric_for_text(&prompt);
    let (_result, success) = evo_complete(msg, 0, Ok(t(output)));
    store.apply_evo_success(msg, &success.unwrap(), group_id)
}

#[test]
fn basic_generator_run() {
    // One module, one extracted chunk; the run publishes one message whose
    // prompt is fully substituted, and one successful call yields exactly one
    // candidate carrying the chunk text.
    let mut store = store_with_module(basic_config("Write: @key/topic", "haiku", ""));
    let chunks = vec![Chunk { input: t("about cats"), reference: t(""), file_id: None }];
    let msgs = store
        .run_module(10, &Vec::new(), &chunks, 100, 7)
        .unwrap();
    assert_eq!(msgs.len(), 1);
    assert_eq!(s(&msgs[0].prompt), "Write: haiku");
    assert_eq!(s(&msgs[0].input), "about cats");
    assert_eq!(s(&msgs[0].model_name), "gpt-3.5-turbo");
    assert_eq!(msgs[0].job_id, 100);
    assert_eq!(store.jobs.len(), 1);
    assert_eq!(store.jobs[0].target_count, 1);
    assert_eq!(store.module_status_of(10), ModuleStatus::Pending);

    let committed = deliver(&mut store, &msgs[0], "Silent whiskers glide", 1000);
    assert!(committed);
    assert_eq!(store.candidates.len(), 1);
    assert_eq!(s(&store.candidates[0].content), "Silent whiskers glide");
    assert_eq!(s(&store.candidates[0].extra.text), "about cats");
    assert_eq!(store.module_status_of(10), ModuleStatus::Ready);
}

#[test]
fn status_runs_through_running() {
    // With two chunks the module is Pending after the run, Running after the
    // first candidate group, Ready once every group arrived.
    let mut store = store_with_module(basic_config("p", "x", ""));
    let chunks = vec![
        Chunk { input: t("one"), reference: t(""), file_id: None },
        Chunk { input: t("two"), reference: t(""), file_id: None },
    ];
    let msgs = store.run_module(10, &Vec::new(), &chunks, 100, 7).unwrap();
    assert_eq!(store.module_status_of(10), ModuleStatus::Pending);
    assert!(deliver(&mut store, &msgs[0], "a", 1));
    assert_eq!(store.module_status_of(10), ModuleStatus::Running);
    assert!(deliver(&mut store, &msgs[1], "b", 2));
    assert_eq!(store.module_status_of(10), ModuleStatus::Ready);
}

#[test]
fn separator_split_shares_one_group() {
    let mut store = store_with_module(basic_config("List three", "x", "|||"));
    let chunks = vec![Chunk { input: t("in"), reference: t(""), file_id: None }];
    let msgs = store.run_module(10, &Vec::new(), &chunks, 100, 7).unwrap();
    assert_eq!(s(&msgs[0].separator), "|||");
    assert!(deliver(&mut store, &msgs[0], "a|||b|||c", 55));
    assert_eq!(store.candidates.len(), 3);
    let contents: Vec<String> = store.candidates.iter().map(|c| s(&c.content)).collect();
    assert_eq!(contents, vec!["a", "b", "c"]);
    for c in &store.candidates {
        assert_eq!(c.group_id, 55);
    }
}

#[test]
fn retry_exhaustion_leaves_no_candidates() {
    // The same delivery fails four times: four input metric rows, no
    // candidate, and no fifth delivery.
    let mut store = store_with_module(basic_config("p", "x", ""));
    let chunks = vec![Chunk { input: t("in"), reference: t(""), file_id: None }];
    let msgs = store.run_module(10, &Vec::new(), &chunks, 100, 7).unwrap();
    let msg = &msgs[0];
    let mut metric_rows = 0;
    let mut attempts: i64 = 0;
    let mut republished: Vec<i64> = Vec::new();
    loop {
        let prompt = prepare_prompt(&msg.prompt, &msg.input, &msg.reference);
        let _m = claymore::worker::metric_for_text(&prompt);
        metric_rows += 1;
        let narrowed = claymore::queue::attempts_narrow(attempts);
        let (result, effects) = evo_complete(msg, narrowed, Err(LlmError::Transient));
        assert!(effects.is_none());
        match claymore::queue::consume_decision(result) {
            claymore::queue::BrokerAction::RepublishThenAck(n) => {
                republished.push(n);
                attempts = n;
            }
            claymore::queue::BrokerAction::Ack => break,
        }
    }
    assert_eq!(metric_rows, 4);
    assert_eq!(republished, vec![1, 2, 3]);
    assert_eq!(store.candidates.len(), 0);
}

#[test]
fn reset_during_run_drops_inflight_deliveries() {
    // Five pending deliveries; two candidates arrive; a reset supersedes the
    // job, and the three remaining deliveries are dropped without effect.
    let mut store = store_with_module(basic_config("p", "x", ""));
    let chunks: Vec<Chunk> = (0..5)
        .map(|i| Chunk { input: t(&format!("in{}", i)), reference: t(""), file_id: None })
        .collect();
    let msgs = store.run_module(10, &Vec::new(), &chunks, 100, 7).unwrap();
    assert_eq!(msgs.len(), 5);
    assert!(deliver(&mut store, &msgs[0], "a", 1));
    assert!(deliver(&mut store, &msgs[1], "b", 2));
    assert_eq!(store.candidates.len(), 2);

    store.reset_module(10, None).unwrap();
    assert_eq!(store.candidates.len(), 0);
    for k in 2..5 {
        let committed = deliver(&mut store, &msgs[k], "late", 100 + k as u128);
        assert!(!committed);
    }
    assert_eq!(store.candidates.len(), 0);
    assert_eq!(store.module_status_of(10), ModuleStatus::Ready);
}

#[test]
fn rerun_supersedes_previous_job() {
    let mut store = store_with_module(basic_config("p", "x", ""));
    let chunks = vec![Chunk { input: t("one"), reference: t(""), file_id: None }];
    let first = store.run_module(10, &Vec::new(), &chunks, 100, 7).unwrap();
    assert!(deliver(&mut store, &first[0], "a", 1));
    let _second = store.run_module(10, &Vec::new(), &chunks, 101, 7).unwrap();
    // The re-run cleared the candidates and superseded the old job.
    assert_eq!(store.candidates.len(), 0);
    assert!(store.jobs[0].superseded);
    assert!(!store.jobs[1].superseded);
    // A late delivery of the first run's job commits nothing.
    assert!(!deliver(&mut store, &first[0], "late", 2));
}

#[test]
fn run_of_missing_module_is_refused() {
    let mut store = Store::new();
    let r = store.run_module(99, &Vec::new(), &Vec::new(), 100, 7);
    assert_eq!(r.err(), Some(OrchestratorError::ModuleNotFound));
}

#[test]
fn reset_with_wrong_category_template_is_refused() {
    let mut store = store_with_module(basic_config("p", "x", ""));
    let template = Template {
        prompt: t("tp"),
        keys: Vec::new(),
        key_configs: Vec::new(),
        separator: t(""),
        preprocess: Vec::new(),
        category: Category::Evaluator,
    };
    let r = store.reset_module(10, Some(&template));
    assert_eq!(r.err(), Some(OrchestratorError::TemplateMismatch));
}

#[test]
fn reset_from_template_builds_blank_values() {
    let mut store = store_with_module(basic_config("p", "x", ""));
    let template = Template {
        prompt: t("Write about @key/topic"),
        keys: vec![t("topic")],
        key_configs: vec![KeyConfig {
            key: t("topic"),
            display_name: t("Topic"),
            hint: t("any topic"),
            value: t("ignored"),
        }],
        separator: t("--"),
        preprocess: Vec::new(),
        category: Category::Generator,
    };
    store.reset_module(10, Some(&template)).unwrap();
    let cfg = &store.modules[0].config;
    assert_eq!(s(&cfg.prompt), "Write about @key/topic");
    assert_eq!(s(&cfg.separator), "--");
    assert_eq!(cfg.key_configs.len(), 1);
    assert_eq!(s(&cfg.key_configs[0].value), "");
    assert_eq!(s(&cfg.key_configs[0].hint), "any topic");
}

#[test]
fn preprocess_outputs_feed_main_prompt() {
    let cfg = ModuleConfig {
        prompt: t("Main: @key/styled"),
        input: t(""),
        keys: vec![t("styled")],
        key_configs: vec![
            KeyConfig { key: t("seed"), display_name: t(""), hint: t(""), value: t("tree") },
            KeyConfig { key: t("styled"), display_name: t(""), hint: t(""), value: t("") },
        ],
        separator: t(""),
        preprocess: vec![PreprocessStep {
            input_keys: vec![t("seed")],
            prompt: t("Style @key/seed nicely"),
            model: t("gpt-3.5-turbo"),
            output_key: t("styled"),
        }],
        assign_data: None,
    };
    assert_eq!(s(&preprocess_prompt(&cfg, 0)), "Style tree nicely");
    let outputs = vec![t("a stately oak")];
    let cfg2 = apply_preprocess(cfg, &outputs);
    assert_eq!(s(&cfg2.key_configs[1].value), "a stately oak");
    assert_eq!(s(&main_prompt(&cfg2)), "Main: a stately oak");
}

#[test]
fn evaluator_runs_pick_the_evaluator_model() {
    let mut store = Store::new();
    store.modules.push(ModuleRow {
        module_id: 11,
        workspace_id: 20,
        name: t("eval"),
        category: Category::Evaluator,
        config: basic_config("p", "x", ""),
    });
    let chunks = vec![Chunk { input: t("one"), reference: t(""), file_id: None }];
    let msgs = store.run_module(11, &Vec::new(), &chunks, 100, 7).unwrap();
    assert_eq!(s(&msgs[0].model_name), "gpt-4-1106-preview");
}

#[test]
fn save_data_uses_default_tag() {
    let mut store = store_with_module(basic_config("p", "x", ""));
    let chunks = vec![Chunk { input: t("in"), reference: t(""), file_id: None }];
    let msgs = store.run_module(10, &Vec::new(), &chunks, 100, 7).unwrap();
    assert!(deliver(&mut store, &msgs[0], "content", 1));
    store.save_data(10, None).unwrap();
    assert_eq!(store.data.len(), 1);
    assert_eq!(s(&store.data[0].tags), "mod-1");
    assert_eq!(s(&store.data[0].content), "content");
    assert!(store.data[0].is_raw);
    // A second save counts the distinct tag already present.
    store.save_data(10, None).unwrap();
    assert_eq!(s(&store.data[1].tags), "mod-2");
}

#[test]
fn save_data_uses_given_tags() {
    let mut store = store_with_module(basic_config("p", "x", ""));
    let chunks = vec![Chunk { input: t("in"), reference: t(""), file_id: None }];
    let msgs = store.run_module(10, &Vec::new(), &chunks, 100, 7).unwrap();
    assert!(deliver(&mut store, &msgs[0], "content", 1));
    store.save_data(10, Some(&vec![t("alpha"), t("beta")])).unwrap();
    assert_eq!(s(&store.data[0].tags), "alpha,beta");
}

#[test]
fn assign_data_sets_config_and_selects_by_tag() {
    let mut store = store_with_module(basic_config("p", "x", ""));
    store
        .assign_data(10, 77, false, &vec![t("poems")])
        .unwrap();
    let assigned = store.modules[0].config.assign_data.as_ref().unwrap();
    assert_eq!(assigned.datastore_id, 77);
    assert!(!assigned.is_raw);
    assert_eq!(s(&assigned.tags), "poems");

    store.data.push(claymore::orchestrator::DataRow {
        owner_id: 77,
        is_raw: false,
        tags: t("poems,short"),
        content: t("row one"),
        reference: t("r1"),
    });
    store.data.push(claymore::orchestrator::DataRow {
        owner_id: 77,
        is_raw: false,
        tags: t("prose"),
        content: t("row two"),
        reference: t("r2"),
    });
    store.data.push(claymore::orchestrator::DataRow {
        owner_id: 78,
        is_raw: false,
        tags: t("poems"),
        content: t("other store"),
        reference: t(""),
    });
    let chunks = select_assigned_data(&store.data, 77, false, &vec![t("poems")]);
    assert_eq!(chunks.len(), 1);
    assert_eq!(s(&chunks[0].input), "row one");
    assert_eq!(s(&chunks[0].reference), "r1");
}

#[test]
fn assign_data_block_drives_a_run() {
    let cfg = ModuleConfig {
        assign_data: Some(AssignData { datastore_id: 77, is_raw: false, tags: t("poems") }),
        ..basic_config("p", "x", "")
    };
    // The shell reads the block, selects the rows, and hands the chunks to
    // the run; the published messages carry the rows' reference texts.
    let mut store = store_with_module(cfg);
    store.data.push(claymore::orchestrator::DataRow {
        owner_id: 77,
        is_raw: false,
        tags: t("poems"),
        content: t("content"),
        reference: t("the ref"),
    });
    let chunks = select_assigned_data(&store.data, 77, false, &vec![t("poems")]);
    let msgs = store.run_module(10, &Vec::new(), &chunks, 100, 7).unwrap();
    assert_eq!(msgs.len(), 1);
    assert_eq!(s(&msgs[0].reference), "the ref");
}

#[test]
fn config_from_template_blanks_input() {
    let template = Template {
        prompt: t("pp"),
        keys: vec![t("k")],
        key_configs: Vec::new(),
        separator: t(""),
        preprocess: Vec::new(),
        category: Category::Generator,
    };
    let cfg = config_from_template(&template);
    assert_eq!(s(&cfg.input), "");
    assert_eq!(cfg.key_configs.len(), 1);
    assert_eq!(s(&cfg.key_configs[0].display_name), "");
}

#[test]
fn evo_payload_validation() {
    let complete = EvoPayload {
        module_id: Some(1),
        job_id: Some(2),
        workspace_id: Some(3),
        file_id: None,
        input: Some(t("in")),
        prompt: Some(t("p")),
        user_id: Some(4),
        separator: None,
        reference: None,
        model_name: None,
    };
    let msg = validate_evo_payload(complete).unwrap();
    assert_eq!(s(&msg.separator), "");
    assert_eq!(s(&msg.reference), "");
    assert_eq!(s(&msg.model_name), "gpt-3.5-turbo");

    let missing = EvoPayload {
        module_id: Some(1),
        job_id: None,
        workspace_id: Some(3),
        file_id: None,
        input: Some(t("in")),
        prompt: Some(t("p")),
        user_id: Some(4),
        separator: None,
        reference: None,
        model_name: None,
    };
    assert_eq!(validate_evo_payload(missing).err(), Some(DropReason::MalformedPayload));
}

#[test]
fn prepare_prompt_substitutes_input_and_reference() {
    let r = prepare_prompt(&t("Q: @key/input R: @key/reference"), &t("IN"), &t("REF"));
    assert_eq!(s(&r), "Q: IN R: REF");
    // An empty reference leaves its token alone.
    let r2 = prepare_prompt(&t("Q: @key/input R: @key/reference"), &t("IN"), &t(""));
    assert_eq!(s(&r2), "Q: IN R: @key/reference");
}

#[test]
fn evaluation_writes_back_not_new_candidates() {
    let (result, effect) = evaluate_complete(42, 0, Ok(t("good: 8/10")));
    assert!(matches!(result, claymore::worker::ExecuteResultV2::Success));
    let effect = effect.unwrap();
    assert_eq!(effect.datadrop_id, 42);
    assert_eq!(s(&effect.evaluation), "good: 8/10");
}

#[test]
fn file_flag_set_on_success() {
    let mut store = store_with_module(basic_config("p", "x", ""));
    store.files.push(claymore::orchestrator::FileBinding {
        file_id: 500,
        module_id: 10,
        finish_process: false,
    });
    let chunks = vec![Chunk { input: t("in"), reference: t(""), file_id: Some(500) }];
    let msgs = store.run_module(10, &Vec::new(), &chunks, 100, 7).unwrap();
    assert_eq!(msgs[0].file_id, Some(500));
    assert!(deliver(&mut store, &msgs[0], "out", 1));
    assert!(store.files[0].finish_process);
}

#[test]
fn metrics_count_tokens_and_characters() {
    let m = claymore::worker::metric_for_text(&t(""));
    assert_eq!(m.token_count, 0);
    assert_eq!(m.word_count, 0);
    let m2 = claymore::worker::metric_for_text(&t("hello world"));
    assert!(m2.token_count >= 1);
    assert_eq!(m2.word_count, 11);
}
