//! The engine of a two-party interactive proof: a state machine that advances by
//! exactly one message, the prover's or the verifier's, on each step.
use vstd::prelude::*;
use rand::rngs::StdRng;

verus! {

/// Where a protocol run stands. Once it has left `Running` it never changes.
#[derive(Clone, Copy, Debug, PartialEq, Eq, Structural)]
pub enum Status {
    Running,
    Accepted,
    Rejected,
}

/// Which computation the prover runs on each of its turns.
#[derive(Clone, Copy, Debug, PartialEq, Eq, Structural)]
pub enum ProverMode {
    Honest,
    Malicious,
}

/// An interactive proof between a prover and a verifier. The prover moves when the
/// number of messages exchanged is even, the verifier when it is odd.
pub trait IP: Sized {
    type ProverMessage;
    type VerifierMessage;
    type Input;

    /// The instance's internal invariant.
    spec fn inv(&self) -> bool;

    /// The inputs that an instance can be built from.
    spec fn input_ok(input: &Self::Input) -> bool;

    /// This instance is the one that `initialize` builds from `input`.
    spec fn built_from(&self, input: &Self::Input) -> bool;

    spec fn status_of(&self) -> Status;

    spec fn mode_of(&self) -> ProverMode;

    /// The number of messages exchanged so far.
    spec fn count(&self) -> nat;

    /// `m` is what the prover sends in this state under the given mode.
    spec fn prover_sends(&self, mode: ProverMode, m: Self::ProverMessage) -> bool;

    /// `post` is this state with the prover's message `m` recorded.
    spec fn records_prover(&self, m: Self::ProverMessage, post: &Self) -> bool;

    /// `post` is a state that the verifier's logic may leave, having answered `m`.
    spec fn verifier_moves(&self, m: Self::VerifierMessage, post: &Self) -> bool;

    /// `post` is this state with the verifier's message `m` recorded.
    spec fn records_verifier(&self, m: Self::VerifierMessage, post: &Self) -> bool;

    /// The verifier's message `m` may be recorded in this state.
    spec fn accepts_verifier_message(&self, m: Self::VerifierMessage) -> bool;

    /// There is a prover message to read back.
    spec fn has_prover_message(&self) -> bool;

    /// `m` is the latest prover message.
    spec fn is_last_prover_message(&self, m: Self::ProverMessage) -> bool;

    /// There is a verifier message to read back.
    spec fn has_verifier_message(&self) -> bool;

    spec fn last_verifier_message(&self) -> Self::VerifierMessage;

    fn initialize(input: Self::Input, prover_mode: ProverMode, rng: &mut StdRng) -> (r: Self)
        requires
            Self::input_ok(&input),
        ensures
            r.inv(),
            r.built_from(&input),
            r.status_of() == Status::Running,
            r.mode_of() == prover_mode,
            r.count() == 0,
    ;

    fn add_verifier_message(&mut self, message: Self::VerifierMessage)
        requires
            old(self).inv(),
            old(self).accepts_verifier_message(message),
        ensures
            old(self).records_verifier(message, final(self)),
            final(self).inv(),
            final(self).count() == old(self).count() + 1,
            final(self).status_of() == old(self).status_of(),
            final(self).mode_of() == old(self).mode_of(),
    ;

    fn add_prover_message(&mut self, message: Self::ProverMessage)
        requires
            old(self).inv(),
            old(self).status_of() == Status::Running,
            old(self).count() % 2 == 0,
        ensures
            old(self).records_prover(message, final(self)),
            final(self).inv(),
            final(self).count() == old(self).count() + 1,
            final(self).status_of() == old(self).status_of(),
            final(self).mode_of() == old(self).mode_of(),
    ;

    fn get_last_prover_message(&self) -> (r: Self::ProverMessage)
        requires
            self.inv(),
            self.has_prover_message(),
        ensures
            self.is_last_prover_message(r),
    ;

    fn get_last_verifier_message(&self) -> (r: Self::VerifierMessage)
        requires
            self.inv(),
            self.has_verifier_message(),
        ensures
            r == self.last_verifier_message(),
    ;

    fn total_messages(&self) -> (r: usize)
        requires
            self.inv(),
        ensures
            r == self.count(),
    ;

    fn run_honest_prover_logic(&mut self) -> (m: Self::ProverMessage)
        requires
            old(self).inv(),
            old(self).status_of() == Status::Running,
            old(self).count() % 2 == 0,
        ensures
            *final(self) == *old(self),
            old(self).prover_sends(ProverMode::Honest, m),
    ;

    fn run_malicious_prover_logic(&mut self) -> (m: Self::ProverMessage)
        requires
            old(self).inv(),
            old(self).status_of() == Status::Running,
            old(self).count() % 2 == 0,
        ensures
            *final(self) == *old(self),
            old(self).prover_sends(ProverMode::Malicious, m),
    ;

    fn run_verifier_logic(&mut self, rng: &mut StdRng) -> (m: Self::VerifierMessage)
        requires
            old(self).inv(),
            old(self).status_of() == Status::Running,
            old(self).count() % 2 == 1,
        ensures
            old(self).verifier_moves(m, final(self)),
            final(self).inv(),
            final(self).count() == old(self).count(),
            final(self).mode_of() == old(self).mode_of(),
            final(self).accepts_verifier_message(m),
    ;

    fn get_status(&self) -> (s: Status)
        ensures
            s == self.status_of(),
    ;

    fn get_prover_mode(&self) -> (m: ProverMode)
        ensures
            m == self.mode_of(),
    ;

    /// Advances the run by one message. A run that has ended is left as it is and
    /// its status returned; otherwise the party whose turn it is moves, and the
    /// status after the move is returned.
    fn step(&mut self, rng: &mut StdRng) -> (s: Status)
        requires
            old(self).inv(),
        ensures
            s == final(self).status_of(),
            final(self).inv(),
            old(self).status_of() != Status::Running ==> *final(self) == *old(self),
            old(self).status_of() == Status::Running ==> {
                &&& final(self).count() == old(self).count() + 1
                &&& final(self).mode_of() == old(self).mode_of()
                &&& if old(self).count() % 2 == 0 {
                    exists|m: Self::ProverMessage| old(self).prover_sends(old(self).mode_of(), m) && #[trigger] old(self).records_prover(m, final(self))
                } else {
                    exists|m: Self::VerifierMessage, mid: Self| #[trigger] old(self).verifier_moves(m, &mid) && #[trigger] mid.records_verifier(m, final(self))
                }
            },
    {
        let status = self.get_status();
        if status != Status::Running {
            return status;
        }
        let num_messages = self.total_messages();
        if num_messages % 2 == 0 {
            let prover_message = match self.get_prover_mode() {
                ProverMode::Honest => self.run_honest_prover_logic(),
                ProverMode::Malicious => self.run_malicious_prover_logic(),
            };
            self.add_prover_message(prover_message);
        } else {
            let ghost pre = *self;
            let verifier_message = self.run_verifier_logic(rng);
            let ghost mid = *self;
            self.add_verifier_message(verifier_message);
            assert(pre.verifier_moves(verifier_message, &mid) && mid.records_verifier(verifier_message, self));
        }
        self.get_status()
    }
}

/// What one call of `step` does: a run that has ended stays exactly as it was; a
/// running one moves by one message of the party whose turn it is.
pub open spec fn step_taken<T: IP>(pre: T, post: T) -> bool {
    &&& post.inv()
    &&& pre.status_of() != Status::Running ==> post == pre
    &&& pre.status_of() == Status::Running ==> {
        &&& post.count() == pre.count() + 1
        &&& post.mode_of() == pre.mode_of()
        &&& if pre.count() % 2 == 0 {
            exists|m: T::ProverMessage| pre.prover_sends(pre.mode_of(), m) && #[trigger] pre.records_prover(m, &post)
        } else {
            exists|m: T::VerifierMessage, mid: T| #[trigger] pre.verifier_moves(m, &mid) && #[trigger] mid.records_verifier(m, &post)
        }
    }
}

/// Each state of `run` is what `step` leaves from the state before it.
pub open spec fn is_run<T: IP>(run: Seq<T>) -> bool {
    forall|k: int| 0 <= k < run.len() - 1 ==> step_taken(#[trigger] run[k], run[k + 1])
}

} // verus!
