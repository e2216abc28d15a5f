pub mod peer_score;
