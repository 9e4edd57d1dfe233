//! An in-process, multi-producer / multi-consumer event bus with selective
//! fan-out by event identifier.
//!
//! Producers construct an intermediary event, optionally enrich it, and
//! capture it; subscribers register interest in specific identifiers (or in
//! all identifiers) and read matching events from bounded queues. A
//! dispatcher drains the capture channel and fans each event out to every
//! matching subscription queue.
//!
//! The dispatcher, the registries and the queues are modelled here as one
//! sequential state machine owned by [`publisher::EvidentPublisher`]:
//! producers enqueue through the capture entry points, and each
//! `process_next` step dispatches one captured event. A host program runs
//! the dispatcher loop on a thread of its own and supplies wall-clock and
//! thread data as plain values.

pub mod event;
pub mod publisher;
pub mod subscription;
pub mod trusted;
