//! The write-once descriptor of a service. Whoever opens an existing service
//! must request exactly the descriptor it was created with.
use vstd::prelude::*;

use crate::channel::OverflowPolicy;

verus! {

/// The messaging pattern of a service.
#[derive(Debug, Clone, Copy, PartialEq, Eq, Structural)]
pub enum MessagingPattern {
    PublishSubscribe,
    Event,
    RequestResponse,
}

/// The type of a payload as the service records it.
#[derive(Debug, Clone, Copy, PartialEq, Eq, Structural)]
pub struct TypeDetail {
    pub type_id: u128,
    pub size: u64,
    pub alignment: u64,
}

/// The static configuration of a service.
#[derive(Debug, Clone, Copy, PartialEq, Eq, Structural)]
pub struct StaticConfig {
    pub messaging_pattern: MessagingPattern,
    pub payload: TypeDetail,
    pub response: Option<TypeDetail>,
    pub history_size: u64,
    pub subscriber_max_buffer_size: u64,
    pub max_publishers: u64,
    pub max_subscribers: u64,
    pub max_nodes: u64,
    pub subscriber_max_borrowed_samples: u64,
    pub overflow: OverflowPolicy,
}

/// A field of the static configuration.
#[derive(Debug, Clone, Copy, PartialEq, Eq, Structural)]
pub enum ConfigField {
    MessagingPattern,
    Payload,
    Response,
    HistorySize,
    SubscriberMaxBufferSize,
    MaxPublishers,
    MaxSubscribers,
    MaxNodes,
    SubscriberMaxBorrowedSamples,
    Overflow,
}

/// Why an existing service could not be opened.
#[derive(Debug, Clone, Copy, PartialEq, Eq, Structural)]
pub enum ServiceOpenError {
    /// The requested configuration differs from the stored one, first in the
    /// named field.
    IncompatibleServiceConfig(ConfigField),
}

/// The first field, in declaration order, in which `a` and `b` differ.
pub open spec fn first_mismatch(a: StaticConfig, b: StaticConfig) -> Option<ConfigField> {
    if a.messaging_pattern != b.messaging_pattern {
        Some(ConfigField::MessagingPattern)
    } else if a.payload != b.payload {
        Some(ConfigField::Payload)
    } else if a.response != b.response {
        Some(ConfigField::Response)
    } else if a.history_size != b.history_size {
        Some(ConfigField::HistorySize)
    } else if a.subscriber_max_buffer_size != b.subscriber_max_buffer_size {
        Some(ConfigField::SubscriberMaxBufferSize)
    } else if a.max_publishers != b.max_publishers {
        Some(ConfigField::MaxPublishers)
    } else if a.max_subscribers != b.max_subscribers {
        Some(ConfigField::MaxSubscribers)
    } else if a.max_nodes != b.max_nodes {
        Some(ConfigField::MaxNodes)
    } else if a.subscriber_max_borrowed_samples != b.subscriber_max_borrowed_samples {
        Some(ConfigField::SubscriberMaxBorrowedSamples)
    } else if a.overflow != b.overflow {
        Some(ConfigField::Overflow)
    } else {
        None
    }
}

/// Opening is refused exactly when a field differs: no mismatch is found if
/// and only if the two configurations are equal.
pub proof fn lemma_mismatch_iff_different(a: StaticConfig, b: StaticConfig)
    ensures
        first_mismatch(a, b) is None <==> a == b,
{
}

fn same_type(a: &TypeDetail, b: &TypeDetail) -> (r: bool)
    ensures
        r == (*a == *b),
{
    a.type_id == b.type_id && a.size == b.size && a.alignment == b.alignment
}

fn same_response(a: &Option<TypeDetail>, b: &Option<TypeDetail>) -> (r: bool)
    ensures
        r == (*a == *b),
{
    match (a, b) {
        (None, None) => true,
        (Some(x), Some(y)) => same_type(x, y),
        _ => false,
    }
}

impl StaticConfig {
    /// Checks that the `requested` configuration is the one the service was
    /// created with (`self`); otherwise names the first differing field.
    pub fn check_compatible(&self, requested: &StaticConfig) -> (r: Result<(), ServiceOpenError>)
        ensures
            match first_mismatch(*self, *requested) {
                None => r is Ok,
                Some(f) => r == Err::<(), ServiceOpenError>(
                    ServiceOpenError::IncompatibleServiceConfig(f),
                ),
            },
            r is Ok <==> *self == *requested,
    {
        let a = self;
        let b = requested;
        let field = if a.messaging_pattern != b.messaging_pattern {
            Some(ConfigField::MessagingPattern)
        } else if !same_type(&a.payload, &b.payload) {
            Some(ConfigField::Payload)
        } else if !same_response(&a.response, &b.response) {
            Some(ConfigField::Response)
        } else if a.history_size != b.history_size {
            Some(ConfigField::HistorySize)
        } else if a.subscriber_max_buffer_size != b.subscriber_max_buffer_size {
            Some(ConfigField::SubscriberMaxBufferSize)
        } else if a.max_publishers != b.max_publishers {
            Some(ConfigField::MaxPublishers)
        } else if a.max_subscribers != b.max_subscribers {
            Some(ConfigField::MaxSubscribers)
        } else if a.max_nodes != b.max_nodes {
            Some(ConfigField::MaxNodes)
        } else if a.subscriber_max_borrowed_samples != b.subscriber_max_borrowed_samples {
            Some(ConfigField::SubscriberMaxBorrowedSamples)
        } else if a.overflow != b.overflow {
            Some(ConfigField::Overflow)
        } else {
            None
        };
        proof {
            lemma_mismatch_iff_different(*self, *requested);
        }
        match field {
            None => Ok(()),
            Some(f) => Err(ServiceOpenError::IncompatibleServiceConfig(f)),
        }
    }
}

} // verus!
