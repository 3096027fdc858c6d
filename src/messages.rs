use vstd::prelude::*;
use chrono::DateTime;
use uuid::Uuid;
use crate::progress::EdgeKind;
use crate::schedule::valid_instant;

verus! {

/// The priority of a task run; each priority has a queue of its own on the bus.
#[derive(Copy, Clone, PartialEq, Eq, Structural, Debug, Hash)]
pub enum TaskPriority {
    BackFill,
    Low,
    Normal,
    High,
}

impl TaskPriority {
    /// The name of the bus queue suffix for this priority.
    pub fn queue_suffix(&self) -> (r: &'static str)
        ensures
            r@ == priority_suffix(*self),
    {
        match self {
            TaskPriority::BackFill => "backfill",
            TaskPriority::Low => "low",
            TaskPriority::Normal => "normal",
            TaskPriority::High => "high",
        }
    }
}

pub open spec fn priority_suffix(p: TaskPriority) -> Seq<char> {
    match p {
        TaskPriority::BackFill => "backfill"@,
        TaskPriority::Low => "low"@,
        TaskPriority::Normal => "normal"@,
        TaskPriority::High => "high"@,
    }
}

/// A task instance at a logical time: the key of a token row.
/// Times are whole seconds since the Unix epoch, UTC.
#[derive(Copy, Clone, PartialEq, Eq, Structural, Debug, Hash)]
pub struct Token {
    pub task_id: u128,
    pub trigger_datetime: i64,
}

/// What a worker needs to run a task: the task's definition and the
/// logical time of the run.
#[derive(Clone, Debug)]
pub struct TaskDef {
    pub task_id: String,
    pub task_name: String,
    pub job_id: String,
    pub job_name: String,
    pub project_id: String,
    pub project_name: String,
    pub trigger_datetime: String,
    pub image: Option<String>,
    pub args: Vec<String>,
    pub env: Option<Vec<String>>,
}

/// A worker's report of a finished task, as it arrives from the bus.
#[derive(Clone, Debug)]
pub struct TaskResult {
    pub task_id: String,
    pub trigger_datetime: String,
    pub result: String,
    pub worker_id: u128,
}

/// A worker's periodic sign of life.
#[derive(Clone, Debug)]
pub struct WorkerHeartbeat {
    pub uuid: u128,
    pub addr: String,
    pub last_seen_datetime: i64,
}

/// A notice that a trigger was created, edited, or its job paused or
/// resumed.
#[derive(Copy, Clone, PartialEq, Eq, Structural, Debug)]
pub struct TriggerUpdate(pub u128);

/// Why a message could not be read.
#[derive(Copy, Clone, PartialEq, Eq, Structural, Debug)]
pub enum MessageError {
    /// The task id is not a UUID.
    InvalidTaskId,
    /// The trigger datetime is not an RFC 3339 instant the scheduler can
    /// represent.
    InvalidDatetime,
    /// The result is neither "success" nor "failure".
    InvalidResult,
}

#[verifier::external_type_specification]
#[verifier::external_body]
pub struct ExUuidError(uuid::Error);

#[verifier::external_type_specification]
#[verifier::external_body]
pub struct ExParseError(chrono::ParseError);

/// The UUID, as a 128-bit value, that a text spells, if it spells one.
pub uninterp spec fn uuid_text(s: Seq<char>) -> Option<u128>;

/// The instant, in whole seconds since the Unix epoch, that an RFC 3339
/// text names, if it names one.
pub uninterp spec fn rfc3339_seconds(s: Seq<char>) -> Option<i64>;

/// Relies on uuid's Uuid::parse_str, read back with Uuid::as_u128.
#[verifier::external_body]
fn parse_uuid(s: &str) -> (r: Result<u128, uuid::Error>)
    ensures
        r is Ok <==> uuid_text(s@) is Some,
        r matches Ok(v) ==> uuid_text(s@) == Some(v),
{
    let u = Uuid::parse_str(s)?;
    Ok(u.as_u128())
}

/// Relies on chrono's DateTime::parse_from_rfc3339, read back in whole
/// seconds with DateTime::timestamp.
#[verifier::external_body]
fn parse_rfc3339(s: &str) -> (r: Result<i64, chrono::ParseError>)
    ensures
        r is Ok <==> rfc3339_seconds(s@) is Some,
        r matches Ok(v) ==> rfc3339_seconds(s@) == Some(v),
{
    let d = DateTime::parse_from_rfc3339(s)?;
    Ok(d.timestamp())
}

/// The token that a parsed task id and trigger datetime name.
pub open spec fn token_spec(task_id: Option<u128>, trigger_datetime: Option<i64>) -> Result<Token, MessageError> {
    match task_id {
        None => Err(MessageError::InvalidTaskId),
        Some(id) => match trigger_datetime {
            Some(t) if valid_instant(t as int) => Ok(Token { task_id: id, trigger_datetime: t }),
            _ => Err(MessageError::InvalidDatetime),
        },
    }
}

/// Builds a token from a parsed task id and trigger datetime (None where
/// the text did not parse).
pub fn token_from_parts(task_id: Option<u128>, trigger_datetime: Option<i64>) -> (r: Result<Token, MessageError>)
    ensures
        r == token_spec(task_id, trigger_datetime),
{
    match task_id {
        None => Err(MessageError::InvalidTaskId),
        Some(id) => match trigger_datetime {
            Some(t) => if -crate::schedule::MAX_INSTANT <= t && t <= crate::schedule::MAX_INSTANT {
                Ok(Token { task_id: id, trigger_datetime: t })
            } else {
                Err(MessageError::InvalidDatetime)
            },
            None => Err(MessageError::InvalidDatetime),
        },
    }
}

/// The kind of edge that a result text follows.
pub open spec fn outcome_spec(result: Seq<char>) -> Result<EdgeKind, MessageError> {
    if result == "success"@ {
        Ok(EdgeKind::Success)
    } else if result == "failure"@ {
        Ok(EdgeKind::Failure)
    } else {
        Err(MessageError::InvalidResult)
    }
}

impl TaskResult {
    /// The token that this result reports on.
    pub fn get_token(&self) -> (r: Result<Token, MessageError>)
        ensures
            r == token_spec(uuid_text(self.task_id@), rfc3339_seconds(self.trigger_datetime@)),
    {
        let id = match parse_uuid(self.task_id.as_str()) {
            Ok(v) => Some(v),
            Err(_) => None,
        };
        let t = match parse_rfc3339(self.trigger_datetime.as_str()) {
            Ok(v) => Some(v),
            Err(_) => None,
        };
        token_from_parts(id, t)
    }

    /// Whether the task succeeded or failed.
    pub fn outcome(&self) -> (r: Result<EdgeKind, MessageError>)
        ensures
            r == outcome_spec(self.result@),
    {
        let success = "success".to_owned();
        let failure = "failure".to_owned();
        if self.result == success {
            Ok(EdgeKind::Success)
        } else if self.result == failure {
            Ok(EdgeKind::Failure)
        } else {
            Err(MessageError::InvalidResult)
        }
    }
}

} // verus!
