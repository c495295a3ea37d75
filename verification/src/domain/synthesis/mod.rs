pub mod lfo;
pub mod wavetable;
