use byteorder::{LittleEndian, WriteBytesExt};
use ratchet::kernels::KernelModules;
use ratchet::model::{mel_count, token_count, HeaderError, HyperParameters};

fn tiny() -> HyperParameters {
    HyperParameters {
        n_vocab: 51865,
        n_audio_ctx: 1500,
        n_audio_state: 384,
        n_audio_head: 6,
        n_audio_layer: 4,
        n_text_ctx: 448,
        n_text_state: 384,
        n_text_head: 6,
        n_text_layer: 4,
        n_mels: 80,
        ftype: -1,
    }
}

#[test]
fn hyperparameters_are_written_little_endian() {
    let mut out = vec![0xAA];
    tiny().write(&mut out);
    assert_eq!(out.len(), 45);
    assert_eq!(&out[..9], &[0xAA, 0x99, 0xCA, 0x00, 0x00, 0xDC, 0x05, 0x00, 0x00]);
    assert_eq!(&out[41..], &[0xFF, 0xFF, 0xFF, 0xFF]);

    let mut theirs = vec![0xAA];
    let h = tiny();
    for field in [
        h.n_vocab,
        h.n_audio_ctx,
        h.n_audio_state,
        h.n_audio_head,
        h.n_audio_layer,
        h.n_text_ctx,
        h.n_text_state,
        h.n_text_head,
        h.n_text_layer,
        h.n_mels,
        h.ftype,
    ] {
        theirs.write_i32::<LittleEndian>(field).unwrap();
    }
    assert_eq!(out, theirs);
}

#[test]
fn hyperparameters_are_read_as_they_were_written() {
    let mut out = Vec::new();
    tiny().write(&mut out);
    assert_eq!(HyperParameters::read(&out), Ok(tiny()));
    // what follows the header is not looked at
    out.extend_from_slice(&[1, 2, 3]);
    assert_eq!(HyperParameters::read(&out), Ok(tiny()));
    let extreme = HyperParameters { n_vocab: i32::MIN, ftype: i32::MAX, ..tiny() };
    let mut out = Vec::new();
    extreme.write(&mut out);
    assert_eq!(HyperParameters::read(&out), Ok(extreme));
}

#[test]
fn a_short_header_is_an_error() {
    let mut out = Vec::new();
    tiny().write(&mut out);
    assert_eq!(HyperParameters::read(&out[..43]), Err(HeaderError::UnexpectedEof));
    assert_eq!(HyperParameters::read(&[]), Err(HeaderError::UnexpectedEof));
}

#[test]
fn fields_are_read_in_their_order() {
    let bytes: Vec<u8> = (0..44).collect();
    let h = HyperParameters::read(&bytes).unwrap();
    assert_eq!(h.n_vocab, 0x03020100);
    assert_eq!(h.n_audio_ctx, 0x07060504);
    assert_eq!(h.n_mels, 0x27262524);
    assert_eq!(h.ftype, 0x2B2A2928);
}

#[test]
fn multilingual_models_have_language_tokens() {
    assert!(tiny().is_multilingual());
    assert_eq!(tiny().languages_end(), Some(50358));
    assert_eq!(tiny().language_tokens(), Some((50259, 50358)));
    let v3 = HyperParameters { n_vocab: 51866, ..tiny() };
    assert!(v3.is_multilingual());
    assert_eq!(v3.languages_end(), Some(50359));
    let english = HyperParameters { n_vocab: 51864, ..tiny() };
    assert!(!english.is_multilingual());
    assert_eq!(english.languages_end(), None);
    assert_eq!(english.language_tokens(), None);
}

#[test]
fn mel_filters_are_counted_by_their_dimensions() {
    assert_eq!(mel_count(80, 201), Some(16080));
    assert_eq!(mel_count(0, 201), Some(0));
    assert_eq!(mel_count(-2, 3), Some(0));
    assert_eq!(mel_count(-2, -3), Some(6));
    assert_eq!(mel_count(65536, 32768), None);
    assert_eq!(mel_count(i32::MIN, -1), None);
    assert_eq!(token_count(51865), 51865);
    assert_eq!(token_count(0), 0);
    assert_eq!(token_count(-5), 0);
}

#[test]
fn kernel_sources_are_found_by_their_keys() {
    let mut kernels = KernelModules::new();
    assert_eq!(kernels.len(), 0);
    assert_eq!(kernels.get("add_vec4"), None);
    kernels.register("add_vec4", "fn main() {}");
    kernels.register("gelu_scalar", "fn main() { }");
    assert_eq!(kernels.get("add_vec4"), Some("fn main() {}"));
    assert_eq!(kernels.get("gelu_scalar"), Some("fn main() { }"));
    assert_eq!(kernels.get("add_vec2"), None);
    // what is registered last stands
    kernels.register("add_vec4", "fn main() { return; }");
    assert_eq!(kernels.get("add_vec4"), Some("fn main() { return; }"));
    assert_eq!(kernels.len(), 3);
    assert_eq!(KernelModules::entry_point(), "main");
}
