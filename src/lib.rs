//! Mining of labelled training examples from per-function source records: records are
//! grouped by repository, call sites are resolved within each group, and each call edge
//! gives a masked positive pair, with a bounded number of negative pairs per caller.

/// Function records, training samples and their mathematical views.
pub mod record;
/// Splitting a record stream into contiguous repository groups.
pub mod grouping;
/// Resolving call-site captures to callees within a group.
pub mod calls;
/// Positive and negative caller/callee pairs of a group, and their laws.
pub mod pairs;
/// Languages, their call queries, and running a query over parsed source.
pub mod query;
/// Training examples of pairs, with the callee's name masked.
pub mod samples;
/// Proportional splitting of a sample list.
pub mod split;
/// Function/docstring samples and the interleaving of drawn negative samples.
pub mod dataset;
/// Doc-comment cleaning and the function table of a doc query.
pub mod comments;
/// Caller/callee samples from a function table and the calls between its functions.
pub mod calltable;
