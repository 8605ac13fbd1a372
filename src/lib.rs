mod buffers;
mod error;
mod laws;
mod stats;
mod wal;
mod wrote;

pub use buffers::{fit_count, flatten, start_of, total_len};
pub use laws::{
    law_enqueue_over_capacity, law_full_batch, law_offset_covers_commit, law_offsets_locate_bytes,
    law_partial_transfer, law_push_each_is_push_all, law_slices_carry_unsent, pending_slices,
    push_each,
};
pub use error::{EnqueueError, FromFileError, OpenError, WriteError};
pub use stats::Stats;
pub use wal::{BlockWrite, WAL, WalState, WriteStep};
pub use wrote::{Wrote, WroteState};
