//! What a query returns, whichever the edition.

use vstd::prelude::*;

use crate::bedrock::BedrockRet;
use crate::java::JavaResult;
use crate::ping::PingMeasurement;
use crate::resolve::Edition;

verus! {

/// The result of a query. The two editions differ in shape: a Java status
/// may come without a ping, a Bedrock status never does.
#[derive(Debug, PartialEq, Eq)]
pub enum QueryResult {
    Java(JavaResult),
    Bedrock(BedrockRet),
}

impl QueryResult {
    /// The edition of the server that answered.
    pub fn edition(&self) -> (r: Edition)
        ensures
            r == match self {
                QueryResult::Java(_) => Edition::Java,
                QueryResult::Bedrock(_) => Edition::Bedrock,
            },
    {
        match self {
            QueryResult::Java(_) => Edition::Java,
            QueryResult::Bedrock(_) => Edition::Bedrock,
        }
    }

    /// The round-trip time, where one was measured.
    pub fn ping(&self) -> (r: Option<PingMeasurement>)
        ensures
            r == match self {
                QueryResult::Java(result) => result.ping,
                QueryResult::Bedrock(result) => Some(result.ping),
            },
    {
        match self {
            QueryResult::Java(result) => result.ping,
            QueryResult::Bedrock(result) => Some(result.ping),
        }
    }
}

} // verus!
