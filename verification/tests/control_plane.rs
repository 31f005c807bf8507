use claymore::chars_of_str;
use claymore::jobs::JobOperation;
use claymore::jobs::JobStatus;
use claymore::jobs::NewJobCheck;
use claymore::jobs::NewJobError;
use claymore::jobs::NewJobSource;
use claymore::jobs::OperateAction;
use claymore::jobs::OperateError;
use claymore::jobs::operate_job;
use claymore::jobs::validate_new_job;
use claymore::llm::ChatChoice;
use claymore::llm::History;
use claymore::llm::Role;
use claymore::llm::build_messages;
use claymore::llm::select_assistant_content;
use claymore::status::JobProgress;
use claymore::worker::JobStatus as WorkerJobStatus;
use claymore::worker::LegacyGate;
use claymore::worker::legacy_gate;
use claymore::worker::legacy_overflow;
use claymore::status::ModuleStatus;
use claymore::status::module_status;
use claymore::orchestrator::AuthError;
use claymore::orchestrator::authorize_member;

#[test]
fn start_resumes_only_paused_jobs() {
    assert_eq!(
        operate_job(JobStatus::Paused, JobOperation::Start),
        Ok(OperateAction::StartJob)
    );
    assert_eq!(
        operate_job(JobStatus::Running, JobOperation::Start),
        Err(OperateError::NotPaused)
    );
    assert_eq!(
        operate_job(JobStatus::Finished, JobOperation::Start),
        Err(OperateError::NotPaused)
    );
}

#[test]
fn pause_stops_only_live_jobs() {
    assert_eq!(
        operate_job(JobStatus::Running, JobOperation::Pause),
        Ok(OperateAction::PauseJob)
    );
    assert_eq!(
        operate_job(JobStatus::Pending, JobOperation::Pause),
        Ok(OperateAction::PauseJob)
    );
    assert_eq!(
        operate_job(JobStatus::Paused, JobOperation::Pause),
        Err(OperateError::AlreadyStopped)
    );
    assert_eq!(
        operate_job(JobStatus::Finished, JobOperation::Pause),
        Err(OperateError::AlreadyStopped)
    );
}

#[test]
fn new_job_needs_generator_or_details() {
    let none = NewJobCheck {
        has_generator: false,
        has_prompt_chain: false,
        has_temperature: false,
        has_word_count: false,
        has_model_name: false,
        name_empty: false,
    };
    assert_eq!(validate_new_job(none), Err(NewJobError::MissingParams));

    let unnamed = NewJobCheck { has_generator: true, name_empty: true, ..none };
    assert_eq!(validate_new_job(unnamed), Err(NewJobError::MissingName));

    let from_generator = NewJobCheck { has_generator: true, ..none };
    assert_eq!(validate_new_job(from_generator), Ok(NewJobSource::FromGenerator));

    let partial = NewJobCheck { has_prompt_chain: true, has_model_name: true, ..none };
    assert_eq!(validate_new_job(partial), Err(NewJobError::MissingDetails));

    let full = NewJobCheck {
        has_prompt_chain: true,
        has_model_name: true,
        has_temperature: true,
        has_word_count: true,
        ..none
    };
    assert_eq!(validate_new_job(full), Ok(NewJobSource::FromDetails));
}

#[test]
fn status_aggregation_rules() {
    assert_eq!(module_status(&Vec::new()), ModuleStatus::Ready);
    assert_eq!(
        module_status(&vec![JobProgress { done: 0, target: 3 }]),
        ModuleStatus::Pending
    );
    assert_eq!(
        module_status(&vec![
            JobProgress { done: 0, target: 3 },
            JobProgress { done: 1, target: 3 },
        ]),
        ModuleStatus::Running
    );
    assert_eq!(
        module_status(&vec![JobProgress { done: 3, target: 3 }]),
        ModuleStatus::Ready
    );
    // A finished job beside an untouched one: nothing mid-flight, not all
    // zero, so the module reads Ready.
    assert_eq!(
        module_status(&vec![
            JobProgress { done: 3, target: 3 },
            JobProgress { done: 0, target: 2 },
        ]),
        ModuleStatus::Ready
    );
}

#[test]
fn chat_transcript_interleaves_history() {
    let history = Some(vec![
        History { user_input: "hi".to_string(), ai_output: "hello".to_string() },
        History { user_input: "more".to_string(), ai_output: "sure".to_string() },
    ]);
    let messages = build_messages(&history, &"final".to_string());
    let shape: Vec<(Role, String)> =
        messages.iter().map(|m| (m.role, m.content.clone())).collect();
    assert_eq!(
        shape,
        vec![
            (Role::User, "hi".to_string()),
            (Role::Assistant, "hello".to_string()),
            (Role::User, "more".to_string()),
            (Role::Assistant, "sure".to_string()),
            (Role::User, "final".to_string()),
        ]
    );
}

#[test]
fn chat_transcript_without_history() {
    let messages = build_messages(&None, &"only".to_string());
    assert_eq!(messages.len(), 1);
    assert_eq!(messages[0].content, "only");
}

#[test]
fn assistant_reply_is_first_assistant_choice() {
    let choices = vec![
        ChatChoice { role: Role::User, content: Some("echo".to_string()) },
        ChatChoice { role: Role::Assistant, content: Some("answer".to_string()) },
        ChatChoice { role: Role::Assistant, content: Some("later".to_string()) },
    ];
    assert_eq!(select_assistant_content(&choices), "answer");
}

#[test]
fn assistant_reply_empty_when_absent() {
    let none: Vec<ChatChoice> = Vec::new();
    assert_eq!(select_assistant_content(&none), "");
    let no_content = vec![ChatChoice { role: Role::Assistant, content: None }];
    assert_eq!(select_assistant_content(&no_content), "");
}

#[test]
fn legacy_worker_gates() {
    assert!(legacy_overflow(3, 3));
    assert!(legacy_overflow(4, 3));
    assert!(!legacy_overflow(2, 3));
    assert_eq!(legacy_gate(WorkerJobStatus::Paused), LegacyGate::AckDrop);
    assert_eq!(
        legacy_gate(WorkerJobStatus::Pending),
        LegacyGate::Run { set_running: true }
    );
    assert_eq!(
        legacy_gate(WorkerJobStatus::Running),
        LegacyGate::Run { set_running: false }
    );
}

#[test]
fn config_startup_fields_carry_through() {
    let config = claymore::config::Config {
        database_url: "postgres://db".to_string(),
        hmac_key: "long-random-signing-key".to_string(),
        upload_dir: "/tmp/uploads".to_string(),
        config_file: "app.toml".to_string(),
        rabbitmq_url: "amqp://mq".to_string(),
        unstructured_url: "http://chunker".to_string(),
        es_url: "http://es".to_string(),
    };
    assert_eq!(config.database_url, "postgres://db");
    assert_eq!(config.es_url, "http://es");
    let _ = chars_of_str(&config.upload_dir);
}

#[test]
fn authorisation_thresholds() {
    assert_eq!(authorize_member(None, 1), Err(AuthError::Forbidden));
    assert_eq!(authorize_member(Some(2), 1), Err(AuthError::Unauthorized));
    assert_eq!(authorize_member(Some(1), 1), Ok(()));
    assert_eq!(authorize_member(Some(0), 1), Ok(()));
}
