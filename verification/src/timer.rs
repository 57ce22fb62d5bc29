use vstd::prelude::*;

use tokio_util::sync::CancellationToken;

verus! {

/// tokio-util's cancellation token, held opaquely as the handle for a
/// room's pending per-turn timer. The timer task itself runs outside the
/// library and checks the token cooperatively before acting.
#[verifier::external_type_specification]
#[verifier::external_body]
pub struct ExCancellationToken(CancellationToken);

/// Relies on `CancellationToken::new`: makes a fresh, uncancelled token.
/// Nothing is assumed of the value; it is carried through opaquely.
pub assume_specification[ CancellationToken::new ]() -> CancellationToken;

/// Relies on `CancellationToken::cancel`: signals cancellation to every
/// task holding a clone of the token. The effect lives outside the
/// library's state, so nothing is assumed of it.
pub assume_specification[ CancellationToken::cancel ](t: &CancellationToken);

} // verus!
