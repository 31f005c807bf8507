//! Legacy job control: validating a job request and the start/pause state
//! machine behind the operate endpoint.

use vstd::prelude::*;

verus! {

/// Lifecycle of a legacy job, as the control plane sees it.
#[derive(Clone, Copy, PartialEq, Eq, Structural, Debug)]
pub enum JobStatus {
    Pending,
    Running,
    Finished,
    Paused,
}

/// The two control operations on a legacy job.
#[derive(Clone, Copy, PartialEq, Eq, Structural, Debug)]
pub enum JobOperation {
    Start,
    Pause,
}

/// What a valid operation amounts to.
#[derive(Clone, Copy, PartialEq, Eq, Structural, Debug)]
pub enum OperateAction {
    /// Set the job pending and publish a fresh queue message for it.
    StartJob,
    /// Set the job paused.
    PauseJob,
}

/// Why an operation is refused.
#[derive(Clone, Copy, PartialEq, Eq, Structural, Debug)]
pub enum OperateError {
    /// Start is valid only on a paused job.
    NotPaused,
    /// Pause is valid only on a job that is neither finished nor paused.
    AlreadyStopped,
}

/// The operate state machine: start resumes exactly a paused job; pause stops
/// exactly a job that is neither finished nor already paused.
pub fn operate_job(current: JobStatus, op: JobOperation) -> (r: Result<OperateAction, OperateError>)
    ensures
        r == (match op {
            JobOperation::Start => if current == JobStatus::Paused {
                Ok(OperateAction::StartJob)
            } else {
                Err::<OperateAction, OperateError>(OperateError::NotPaused)
            },
            JobOperation::Pause => if current == JobStatus::Finished || current
                == JobStatus::Paused {
                Err::<OperateAction, OperateError>(OperateError::AlreadyStopped)
            } else {
                Ok(OperateAction::PauseJob)
            },
        }),
{
    match op {
        JobOperation::Start => {
            if current == JobStatus::Paused {
                Ok(OperateAction::StartJob)
            } else {
                Err(OperateError::NotPaused)
            }
        },
        JobOperation::Pause => {
            if current == JobStatus::Finished || current == JobStatus::Paused {
                Err(OperateError::AlreadyStopped)
            } else {
                Ok(OperateAction::PauseJob)
            }
        },
    }
}

/// Which fields a job request carries; validation needs no more of it.
#[derive(Clone, Copy, PartialEq, Eq, Structural, Debug)]
pub struct NewJobCheck {
    pub has_generator: bool,
    pub has_prompt_chain: bool,
    pub has_temperature: bool,
    pub has_word_count: bool,
    pub has_model_name: bool,
    pub name_empty: bool,
}

/// Where a valid job takes its generation parameters from.
#[derive(Clone, Copy, PartialEq, Eq, Structural, Debug)]
pub enum NewJobSource {
    FromGenerator,
    FromDetails,
}

/// Why a job request is refused.
#[derive(Clone, Copy, PartialEq, Eq, Structural, Debug)]
pub enum NewJobError {
    /// Neither a generator nor any detail field is given.
    MissingParams,
    /// The job name is empty.
    MissingName,
    /// Some detail field is missing and no generator is given.
    MissingDetails,
}

/// A request must name a generator or carry all four detail fields, and must
/// carry a job name.
pub open spec fn spec_validate_new_job(c: NewJobCheck) -> Result<NewJobSource, NewJobError> {
    if !c.has_generator && !c.has_model_name && !c.has_prompt_chain && !c.has_temperature
        && !c.has_word_count {
        Err(NewJobError::MissingParams)
    } else if c.name_empty {
        Err(NewJobError::MissingName)
    } else if c.has_generator {
        Ok(NewJobSource::FromGenerator)
    } else if !c.has_prompt_chain || !c.has_model_name || !c.has_temperature
        || !c.has_word_count {
        Err(NewJobError::MissingDetails)
    } else {
        Ok(NewJobSource::FromDetails)
    }
}

/// Validates a job request.
pub fn validate_new_job(c: NewJobCheck) -> (r: Result<NewJobSource, NewJobError>)
    ensures
        r == spec_validate_new_job(c),
{
    if !c.has_generator && !c.has_model_name && !c.has_prompt_chain && !c.has_temperature
        && !c.has_word_count {
        Err(NewJobError::MissingParams)
    } else if c.name_empty {
        Err(NewJobError::MissingName)
    } else if c.has_generator {
        Ok(NewJobSource::FromGenerator)
    } else if !c.has_prompt_chain || !c.has_model_name || !c.has_temperature
        || !c.has_word_count {
        Err(NewJobError::MissingDetails)
    } else {
        Ok(NewJobSource::FromDetails)
    }
}

} // verus!
