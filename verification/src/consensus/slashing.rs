//! Slashing evidence: construction, verification of the evidence shape, and
//! the amount of stake each offense forfeits.
use vstd::prelude::*;
use vstd::string::StringSliceAdditionalSpecFns;
use crate::core_types::hex::{hex_decode, spec_hex_decode, spec_hex_error_text};
use crate::core_types::order::compare_bytes;
use crate::core_types::time::unix_millis;

verus! {

#[derive(Debug, Clone, Copy, PartialEq, Eq, Structural)]
pub enum SlashingType {
    DoubleSign,
    DoubleProposal,
    DoubleVote,
    Downtime,
    InvalidBlock,
}

#[derive(Debug, Clone)]
pub struct SlashingEvidence {
    pub offense_type: SlashingType,
    pub validator: String,
    pub height: u64,
    pub epoch: u64,
    pub slot: u64,
    pub block_hash_1: Option<String>,
    pub block_hash_2: Option<String>,
    pub signature_1: Option<Vec<u8>>,
    pub signature_2: Option<Vec<u8>>,
    pub vrf_output_1: Option<Vec<u8>>,
    pub vrf_output_2: Option<Vec<u8>>,
    pub checkpoint_hash_1: Option<String>,
    pub checkpoint_hash_2: Option<String>,
    pub timestamp: u128,
    pub reporter: String,
}

/// The verdict on double-sign evidence.
pub open spec fn double_sign_verdict(e: SlashingEvidence) -> Result<(), Seq<char>> {
    if e.offense_type != SlashingType::DoubleSign {
        Err("Wrong offense type"@)
    } else if e.block_hash_1 is None {
        Err("Missing block_hash_1"@)
    } else if e.block_hash_2 is None {
        Err("Missing block_hash_2"@)
    } else if e.block_hash_1.unwrap()@ == e.block_hash_2.unwrap()@ {
        Err("Block hashes are identical"@)
    } else if e.signature_1 is None {
        Err("Missing signature_1"@)
    } else if e.signature_2 is None {
        Err("Missing signature_2"@)
    } else if e.signature_1.unwrap()@ == e.signature_2.unwrap()@ {
        Err("Signatures are identical"@)
    } else {
        let raw = e.validator@;
        match spec_hex_decode(vstd::utf8::encode_utf8(raw)) {
            None => Err("Invalid validator pubkey: "@ + spec_hex_error_text(
                vstd::utf8::encode_utf8(raw),
            )),
            Some(pk) => if pk.len() != 32 {
                Err("Invalid validator pubkey length"@)
            } else {
                Ok(())
            },
        }
    }
}

/// The verdict on double-proposal evidence.
pub open spec fn double_proposal_verdict(e: SlashingEvidence) -> Result<(), Seq<char>> {
    if e.offense_type != SlashingType::DoubleProposal {
        Err("Wrong offense type"@)
    } else if e.block_hash_1 is None {
        Err("Missing block_hash_1"@)
    } else if e.block_hash_2 is None {
        Err("Missing block_hash_2"@)
    } else if e.block_hash_1.unwrap()@ == e.block_hash_2.unwrap()@ {
        Err("Block hashes are identical — not a double proposal"@)
    } else if e.signature_1 is None {
        Err("Missing signature_1"@)
    } else if e.signature_2 is None {
        Err("Missing signature_2"@)
    } else if e.vrf_output_1 is None {
        Err("Missing vrf_output_1"@)
    } else if e.vrf_output_2 is None {
        Err("Missing vrf_output_2"@)
    } else if e.vrf_output_1.unwrap()@ != e.vrf_output_2.unwrap()@ {
        Err("VRF outputs differ — same slot should produce same VRF output"@)
    } else if e.epoch == 0 && e.slot == 0 {
        Err("Invalid epoch/slot for double proposal"@)
    } else {
        Ok(())
    }
}

/// The verdict on double-vote evidence.
pub open spec fn double_vote_verdict(e: SlashingEvidence) -> Result<(), Seq<char>> {
    if e.offense_type != SlashingType::DoubleVote {
        Err("Wrong offense type"@)
    } else if e.checkpoint_hash_1 is None {
        Err("Missing checkpoint_hash_1"@)
    } else if e.checkpoint_hash_2 is None {
        Err("Missing checkpoint_hash_2"@)
    } else if e.checkpoint_hash_1.unwrap()@ == e.checkpoint_hash_2.unwrap()@ {
        Err("Checkpoint hashes are identical — not a double vote"@)
    } else if e.signature_1 is None {
        Err("Missing BLS signature_1"@)
    } else if e.signature_2 is None {
        Err("Missing BLS signature_2"@)
    } else if e.epoch == 0 {
        Err("Invalid epoch for double vote evidence"@)
    } else {
        Ok(())
    }
}

pub open spec fn spec_slash_amount(t: SlashingType, stake: u64) -> u64 {
    match t {
        SlashingType::DoubleSign => stake,
        SlashingType::DoubleProposal => stake,
        SlashingType::DoubleVote => stake,
        SlashingType::Downtime => (stake / 10) as u64,
        SlashingType::InvalidBlock => (stake / 2) as u64,
    }
}

pub open spec fn str_result_matches(r: Result<(), String>, s: Result<(), Seq<char>>) -> bool {
    match r {
        Ok(_) => s is Ok,
        Err(m) => s == Err::<(), Seq<char>>(m@),
    }
}

fn err_text(s: &str) -> (r: Result<(), String>)
    ensures
        r matches Err(m) && m@ == s@,
{
    Err(s.to_owned())
}

fn bytes_differ(a: &Vec<u8>, b: &Vec<u8>) -> (r: bool)
    ensures
        r == (a@ != b@),
{
    compare_bytes(a.as_slice(), b.as_slice()) != 0
}

impl SlashingEvidence {
    /// Evidence that `validator` signed two different blocks at `height`.
    pub fn double_sign(
        validator: String,
        height: u64,
        block_hash_1: String,
        block_hash_2: String,
        signature_1: Vec<u8>,
        signature_2: Vec<u8>,
        reporter: String,
    ) -> (e: Self)
        ensures
            e.offense_type == SlashingType::DoubleSign,
            e.validator == validator,
            e.height == height,
            e.epoch == 0,
            e.slot == 0,
            e.block_hash_1 == Some(block_hash_1),
            e.block_hash_2 == Some(block_hash_2),
            e.signature_1 == Some(signature_1),
            e.signature_2 == Some(signature_2),
            e.vrf_output_1 is None,
            e.vrf_output_2 is None,
            e.checkpoint_hash_1 is None,
            e.checkpoint_hash_2 is None,
            e.reporter == reporter,
    {
        let timestamp: u128 = unix_millis();
        SlashingEvidence {
            offense_type: SlashingType::DoubleSign,
            validator,
            height,
            epoch: 0,
            slot: 0,
            block_hash_1: Some(block_hash_1),
            block_hash_2: Some(block_hash_2),
            signature_1: Some(signature_1),
            signature_2: Some(signature_2),
            vrf_output_1: None,
            vrf_output_2: None,
            checkpoint_hash_1: None,
            checkpoint_hash_2: None,
            timestamp,
            reporter,
        }
    }

    /// Evidence that `validator` proposed two different blocks in one slot.
    pub fn double_proposal(
        validator: String,
        epoch: u64,
        slot: u64,
        block_hash_1: String,
        block_hash_2: String,
        signature_1: Vec<u8>,
        signature_2: Vec<u8>,
        vrf_output_1: Vec<u8>,
        vrf_output_2: Vec<u8>,
        reporter: String,
    ) -> (e: Self)
        ensures
            e.offense_type == SlashingType::DoubleProposal,
            e.validator == validator,
            e.height == slot,
            e.epoch == epoch,
            e.slot == slot,
            e.block_hash_1 == Some(block_hash_1),
            e.block_hash_2 == Some(block_hash_2),
            e.signature_1 == Some(signature_1),
            e.signature_2 == Some(signature_2),
            e.vrf_output_1 == Some(vrf_output_1),
            e.vrf_output_2 == Some(vrf_output_2),
            e.checkpoint_hash_1 is None,
            e.checkpoint_hash_2 is None,
            e.reporter == reporter,
    {
        let timestamp: u128 = unix_millis();
        SlashingEvidence {
            offense_type: SlashingType::DoubleProposal,
            validator,
            height: slot,
            epoch,
            slot,
            block_hash_1: Some(block_hash_1),
            block_hash_2: Some(block_hash_2),
            signature_1: Some(signature_1),
            signature_2: Some(signature_2),
            vrf_output_1: Some(vrf_output_1),
            vrf_output_2: Some(vrf_output_2),
            checkpoint_hash_1: None,
            checkpoint_hash_2: None,
            timestamp,
            reporter,
        }
    }

    /// Evidence that `validator` missed its duties at `height`.
    pub fn downtime(validator: String, height: u64, reporter: String) -> (e: Self)
        ensures
            e.offense_type == SlashingType::Downtime,
            e.validator == validator,
            e.height == height,
            e.epoch == 0,
            e.slot == 0,
            e.block_hash_1 is None,
            e.block_hash_2 is None,
            e.signature_1 is None,
            e.signature_2 is None,
            e.vrf_output_1 is None,
            e.vrf_output_2 is None,
            e.checkpoint_hash_1 is None,
            e.checkpoint_hash_2 is None,
            e.reporter == reporter,
    {
        let timestamp: u128 = unix_millis();
        SlashingEvidence {
            offense_type: SlashingType::Downtime,
            validator,
            height,
            epoch: 0,
            slot: 0,
            block_hash_1: None,
            block_hash_2: None,
            signature_1: None,
            signature_2: None,
            vrf_output_1: None,
            vrf_output_2: None,
            checkpoint_hash_1: None,
            checkpoint_hash_2: None,
            timestamp,
            reporter,
        }
    }

    /// Evidence that `validator` voted for two different checkpoints in `epoch`.
    pub fn double_vote(
        validator: String,
        epoch: u64,
        checkpoint_hash_1: String,
        checkpoint_hash_2: String,
        sig_bls_1: Vec<u8>,
        sig_bls_2: Vec<u8>,
        reporter: String,
    ) -> (e: Self)
        ensures
            e.offense_type == SlashingType::DoubleVote,
            e.validator == validator,
            e.height == 0,
            e.epoch == epoch,
            e.slot == 0,
            e.block_hash_1 is None,
            e.block_hash_2 is None,
            e.signature_1 == Some(sig_bls_1),
            e.signature_2 == Some(sig_bls_2),
            e.vrf_output_1 is None,
            e.vrf_output_2 is None,
            e.checkpoint_hash_1 == Some(checkpoint_hash_1),
            e.checkpoint_hash_2 == Some(checkpoint_hash_2),
            e.reporter == reporter,
    {
        let timestamp: u128 = unix_millis();
        SlashingEvidence {
            offense_type: SlashingType::DoubleVote,
            validator,
            height: 0,
            epoch,
            slot: 0,
            block_hash_1: None,
            block_hash_2: None,
            signature_1: Some(sig_bls_1),
            signature_2: Some(sig_bls_2),
            vrf_output_1: None,
            vrf_output_2: None,
            checkpoint_hash_1: Some(checkpoint_hash_1),
            checkpoint_hash_2: Some(checkpoint_hash_2),
            timestamp,
            reporter,
        }
    }

    /// Check the shape of double-sign evidence: two distinct hashes, two
    /// distinct signatures, and a hex-encoded 32-byte validator key.
    pub fn verify_double_sign(&self) -> (r: Result<(), String>)
        ensures
            str_result_matches(r, double_sign_verdict(*self)),
    {
        if self.offense_type != SlashingType::DoubleSign {
            return err_text("Wrong offense type");
        }
        let hash1 = match &self.block_hash_1 {
            Some(h) => h,
            None => return err_text("Missing block_hash_1"),
        };
        let hash2 = match &self.block_hash_2 {
            Some(h) => h,
            None => return err_text("Missing block_hash_2"),
        };
        if *hash1 == *hash2 {
            return err_text("Block hashes are identical");
        }
        let sig1 = match &self.signature_1 {
            Some(s) => s,
            None => return err_text("Missing signature_1"),
        };
        let sig2 = match &self.signature_2 {
            Some(s) => s,
            None => return err_text("Missing signature_2"),
        };
        if !bytes_differ(sig1, sig2) {
            return err_text("Signatures are identical");
        }
        match hex_decode(self.validator.as_str().as_bytes()) {
            Err(m) => {
                let mut msg: String = "Invalid validator pubkey: ".to_owned();
                msg.append(m.as_str());
                Err(msg)
            },
            Ok(pk) => if pk.len() != 32 {
                err_text("Invalid validator pubkey length")
            } else {
                Ok(())
            },
        }
    }

    /// Check the shape of double-proposal evidence: two distinct block hashes,
    /// both signatures, and equal VRF outputs in a nonzero epoch or slot.
    pub fn verify_double_proposal(&self) -> (r: Result<(), String>)
        ensures
            str_result_matches(r, double_proposal_verdict(*self)),
    {
        if self.offense_type != SlashingType::DoubleProposal {
            return err_text("Wrong offense type");
        }
        let hash1 = match &self.block_hash_1 {
            Some(h) => h,
            None => return err_text("Missing block_hash_1"),
        };
        let hash2 = match &self.block_hash_2 {
            Some(h) => h,
            None => return err_text("Missing block_hash_2"),
        };
        if *hash1 == *hash2 {
            return err_text("Block hashes are identical — not a double proposal");
        }
        if self.signature_1.is_none() {
            return err_text("Missing signature_1");
        }
        if self.signature_2.is_none() {
            return err_text("Missing signature_2");
        }
        let vrf1 = match &self.vrf_output_1 {
            Some(v) => v,
            None => return err_text("Missing vrf_output_1"),
        };
        let vrf2 = match &self.vrf_output_2 {
            Some(v) => v,
            None => return err_text("Missing vrf_output_2"),
        };
        if bytes_differ(vrf1, vrf2) {
            return err_text("VRF outputs differ — same slot should produce same VRF output");
        }
        if self.epoch == 0 && self.slot == 0 {
            return err_text("Invalid epoch/slot for double proposal");
        }
        Ok(())
    }

    /// Check the shape of double-vote evidence: two distinct checkpoint hashes,
    /// both BLS signatures, and a nonzero epoch.
    pub fn verify_double_vote(&self) -> (r: Result<(), String>)
        ensures
            str_result_matches(r, double_vote_verdict(*self)),
    {
        if self.offense_type != SlashingType::DoubleVote {
            return err_text("Wrong offense type");
        }
        let ch1 = match &self.checkpoint_hash_1 {
            Some(h) => h,
            None => return err_text("Missing checkpoint_hash_1"),
        };
        let ch2 = match &self.checkpoint_hash_2 {
            Some(h) => h,
            None => return err_text("Missing checkpoint_hash_2"),
        };
        if *ch1 == *ch2 {
            return err_text("Checkpoint hashes are identical — not a double vote");
        }
        if self.signature_1.is_none() {
            return err_text("Missing BLS signature_1");
        }
        if self.signature_2.is_none() {
            return err_text("Missing BLS signature_2");
        }
        if self.epoch == 0 {
            return err_text("Invalid epoch for double vote evidence");
        }
        Ok(())
    }

    /// Stake forfeited for this offense: all of it for equivocation, a tenth for
    /// downtime, half for an invalid block.
    pub fn slash_amount(&self, stake: u64) -> (r: u64)
        ensures
            r == spec_slash_amount(self.offense_type, stake),
            r <= stake,
            self.offense_type == SlashingType::InvalidBlock ==> r == stake / 2,
            self.offense_type == SlashingType::Downtime ==> r == stake / 10,
            (self.offense_type == SlashingType::DoubleSign || self.offense_type == SlashingType::DoubleProposal
                || self.offense_type == SlashingType::DoubleVote) ==> r == stake,
    {
        match self.offense_type {
            SlashingType::DoubleSign => stake,
            SlashingType::DoubleProposal => stake,
            SlashingType::DoubleVote => stake,
            SlashingType::Downtime => stake / 10,
            SlashingType::InvalidBlock => stake / 2,
        }
    }
}

/// What each offense forfeits: the whole stake for equivocation (double sign,
/// double proposal, double vote), half of it (rounded down) for an invalid
/// block, a tenth (rounded down) for downtime. So an invalid block costs at
/// least as much as downtime and never more than equivocation.
pub proof fn law_slash_rates(stake: u64)
    ensures
        spec_slash_amount(SlashingType::DoubleSign, stake) == stake,
        spec_slash_amount(SlashingType::DoubleProposal, stake) == stake,
        spec_slash_amount(SlashingType::DoubleVote, stake) == stake,
        2 * spec_slash_amount(SlashingType::InvalidBlock, stake) <= stake < 2 * spec_slash_amount(SlashingType::InvalidBlock, stake) + 2,
        10 * spec_slash_amount(SlashingType::Downtime, stake) <= stake < 10 * spec_slash_amount(SlashingType::Downtime, stake) + 10,
        spec_slash_amount(SlashingType::Downtime, stake) <= spec_slash_amount(SlashingType::InvalidBlock, stake),
        spec_slash_amount(SlashingType::InvalidBlock, stake) <= spec_slash_amount(SlashingType::DoubleSign, stake),
{
}

/// Equivocation evidence never convicts on identical blocks or checkpoints:
/// evidence whose two hashes are equal is always rejected.
pub proof fn law_identical_hashes_never_slash(e: SlashingEvidence)
    ensures
        e.block_hash_1 is Some && e.block_hash_2 is Some && e.block_hash_1.unwrap()@
            == e.block_hash_2.unwrap()@ ==> double_sign_verdict(e) is Err
            && double_proposal_verdict(e) is Err,
        e.checkpoint_hash_1 is Some && e.checkpoint_hash_2 is Some && e.checkpoint_hash_1.unwrap()@
            == e.checkpoint_hash_2.unwrap()@ ==> double_vote_verdict(e) is Err,
{
}

} // verus!
