//! A verified core for running inference work against an engine that owns its
//! own buffers: raw type codes and error values, a descriptor-level model of
//! engine tensors, a bounded slot pool that lets many concurrent callers share
//! one pre-allocated buffer through numbered, non-overlapping slots, and a
//! single-shot completion cell that bridges the engine's "operation finished"
//! callback to a cooperative task scheduler without losing a wakeup.

mod builder;
mod network;
mod pool;
mod tensor;
mod types;

pub use builder::IO;
pub use network::BridgeState;
pub use network::PollOutcome;
pub use network::RacePoint;
pub use network::State;
pub use network::lemma_consume_exactly_once;
pub use network::lemma_no_lost_wakeup;
pub use network::poll_race;
pub use pool::AllocEvent;
pub use pool::AllocModel;
pub use pool::FreeList;
pub use pool::Idx;
pub use pool::TensorPool;
pub use pool::acquire_events;
pub use pool::alloc_run;
pub use pool::derived_live;
pub use pool::int_seq;
pub use pool::lemma_acquire_grants_fresh;
pub use pool::lemma_acquire_release_round_trip;
pub use pool::lemma_acquisition_counts;
pub use pool::lemma_free_plus_live_is_capacity;
pub use pool::lemma_full_pool_release_unblocks_one;
pub use pool::lemma_init_inv;
pub use pool::lemma_pool_views_disjoint;
pub use pool::lemma_run_inv;
pub use pool::lemma_slot_views_disjoint;
pub use pool::lemma_step_inv;
pub use pool::lemma_two_acquisitions_distinct;
pub use pool::spec_pool_fits;
pub use pool::spec_slot_nbytes;
pub use tensor::LAYOUT_MAX_DIM;
pub use tensor::Layout;
pub use tensor::LiteLayout;
pub use tensor::LiteTensorDesc;
pub use tensor::SliceInfo;
pub use tensor::Tensor;
pub use tensor::TensorView;
pub use tensor::spec_elem_count;
pub use tensor::spec_layout_nbytes;
pub use types::AlgoSelectStrategy;
pub use types::DataType;
pub use types::DeviceType;
pub use types::IOType;
pub use types::IntoLiteRst;
pub use types::LiteAlgoSelectStrategy;
pub use types::LiteDataType;
pub use types::LiteDeviceType;
pub use types::LiteError;
pub use types::LiteIOType;
pub use types::LiteResult;
pub use types::code_to_result;
