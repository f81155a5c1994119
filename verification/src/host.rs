//! Host-side checks made before handing XMSS data to a prover.

use vstd::prelude::*;

verus! {

/// Errors surfaced by host-side helpers when preparing XMSS data.
#[derive(Debug, Clone, PartialEq, Eq, Structural)]
pub enum XmssHostError {
    EpochOutOfRange { epoch: u32, activation_epoch: usize, num_active_epochs: usize },
}

/// Whether `epoch` lies in `[activation_epoch, activation_epoch + num_active_epochs)`,
/// an end that must itself fit in `usize`.
pub open spec fn epoch_in_range(activation_epoch: usize, num_active_epochs: usize, epoch: u32) -> bool {
    &&& activation_epoch + num_active_epochs <= usize::MAX
    &&& activation_epoch <= epoch
    &&& epoch < activation_epoch + num_active_epochs
}

/// Ensure the requested epoch falls inside the activation range given at
/// key generation.
pub fn validate_epoch_range(activation_epoch: usize, num_active_epochs: usize, epoch: u32) -> (r: Result<
    (),
    XmssHostError,
>)
    ensures
        r is Ok <==> epoch_in_range(activation_epoch, num_active_epochs, epoch),
        r is Err ==> r == Err::<(), XmssHostError>(
            XmssHostError::EpochOutOfRange { epoch, activation_epoch, num_active_epochs },
        ),
{
    let start = activation_epoch;
    let end = match activation_epoch.checked_add(num_active_epochs) {
        Some(e) => e,
        None => {
            return Err(XmssHostError::EpochOutOfRange { epoch, activation_epoch, num_active_epochs });
        },
    };
    let epoch_usize = epoch as usize;
    if !(start <= epoch_usize && epoch_usize < end) {
        return Err(XmssHostError::EpochOutOfRange { epoch, activation_epoch, num_active_epochs });
    }
    Ok(())
}

} // verus!
