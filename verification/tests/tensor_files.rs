use upscale::weights::{
    describe_head, embed_from, le_words, load_embed_bytes, load_verdict, looks_like_safetensors,
    parser_takes, prefix_pattern, try_load_embed_bytes, unet_remaps, vae_remaps, EmbedError,
    Loaded,
};

/// A tensor file with the given header and data.
fn file(header: &str, data: &[u8]) -> Vec<u8> {
    let mut bytes = (header.len() as u64).to_le_bytes().to_vec();
    bytes.extend(header.as_bytes());
    bytes.extend(data);
    bytes
}

fn tensor(name: &str, shape: &str, data: &[f32]) -> Vec<u8> {
    let bytes: Vec<u8> = data.iter().flat_map(|v| v.to_le_bytes()).collect();
    let header = format!(
        "{{\"{name}\":{{\"dtype\":\"F32\",\"shape\":{shape},\"data_offsets\":[0,{}]}}}}",
        bytes.len()
    );
    file(&header, &bytes)
}

#[test]
fn the_embedding_is_read() {
    let values = [1.5, -2.0, 0.0, 3.25, f32::MIN, 7.0];
    let embed = load_embed_bytes(&tensor("empty_prompt_embed", "[1,2,3]", &values)).unwrap();
    assert_eq!(embed.shape, [1, 2, 3]);
    let got: Vec<f32> = embed.bits.iter().map(|&b| f32::from_bits(b)).collect();
    assert_eq!(got, values);
}

#[test]
fn a_file_without_the_embedding() {
    let result = load_embed_bytes(&tensor("other", "[1,1,2]", &[0.0, 0.0]));
    assert!(matches!(result, Err(EmbedError::Missing(_))));
    assert_eq!(
        result.unwrap_err().message(),
        "embed tensor missing: tensor `empty_prompt_embed` not found"
    );
}

#[test]
fn an_embedding_of_another_rank() {
    let result = load_embed_bytes(&tensor("empty_prompt_embed", "[2]", &[0.0, 0.0]));
    assert!(matches!(result, Err(EmbedError::Rank)));
    assert_eq!(result.unwrap_err().message(), "embed must be rank 3");
}

#[test]
fn a_malformed_file() {
    match load_embed_bytes(b"not a tensor file") {
        Err(EmbedError::Parse(text)) => {
            assert!(!text.is_empty() && !text.contains("not a tensor file"));
            assert_eq!(
                EmbedError::Parse(text.clone()).message(),
                format!("bad embed file: {text}")
            );
        }
        _ => panic!("parsed"),
    }
}

#[test]
fn huge_numbers_are_not_handed_to_the_parser() {
    let huge = file("{\"a\":{\"dtype\":\"F32\",\"shape\":[18446744073709551615]}}", &[]);
    assert!(!parser_takes(&huge));
    assert!(try_load_embed_bytes(&huge).is_none());
    let good = tensor("empty_prompt_embed", "[1,1,1]", &[4.0]);
    assert!(parser_takes(&good));
    assert_eq!(try_load_embed_bytes(&good).unwrap().unwrap().bits, vec![4.0f32.to_bits()]);
    assert!(parser_takes(b"short"));
    assert!(try_load_embed_bytes(b"short").unwrap().is_err());
}

#[test]
fn only_numbers_that_overflow_are_held_back() {
    let digits = "184467440737095516159999";
    let header = format!(
        "{{\"__metadata__\":{{\"id\":\"{digits}\",\"a\\\"18446744073709551615\":\"x\"}},\
         \"empty_prompt_embed\":{{\"dtype\":\"F32\",\"shape\":[1,1,1],\"data_offsets\":[0,4]}}}}"
    );
    let embed = try_load_embed_bytes(&file(&header, &2.5f32.to_le_bytes())).unwrap().unwrap();
    assert_eq!(embed.bits, vec![2.5f32.to_bits()]);
    // Large, but nowhere near the end of the range, and too large to be a size.
    for number in ["1000000000", digits] {
        let header = format!("{{\"a\":{{\"dtype\":\"F32\",\"shape\":[{number}]}}}}");
        let result = try_load_embed_bytes(&file(&header, &[])).unwrap();
        assert!(matches!(result, Err(EmbedError::Parse(_))));
    }
    let last = format!("{{\"a\":{}", usize::MAX);
    assert!(!parser_takes(&file(&last, &[])));
    let end = 8 + last.len();
    assert!(parser_takes(&file(&format!("{{\"a\":{}", usize::MAX - end), &[])));
    assert!(!parser_takes(&file(&format!("{{\"a\":{}", usize::MAX - end + 1), &[])));
}

#[test]
fn words_are_little_endian() {
    assert_eq!(le_words(&[1, 2, 3, 4, 5, 6]), vec![0x0403_0201]);
    assert!(le_words(&[1, 2, 3]).is_empty());
    let missing = embed_from(Err("gone".to_string()));
    assert!(matches!(missing, Err(EmbedError::Missing(text)) if text == "gone"));
    assert!(matches!(embed_from(Ok((vec![1, 1], vec![]))), Err(EmbedError::Rank)));
    let embed = embed_from(Ok((vec![1, 1, 1], vec![0, 0, 128, 63]))).unwrap();
    assert_eq!(embed.bits, vec![1.0f32.to_bits()]);
}

#[test]
fn tensor_files_are_recognized() {
    assert!(looks_like_safetensors(&file("{}", &[])));
    assert!(looks_like_safetensors(&tensor("a", "[1]", &[0.0])));
    assert!(!looks_like_safetensors(b"<!doctype html><html></html>"));
    assert!(!looks_like_safetensors(&file("[]", &[])));
    assert!(!looks_like_safetensors(b""));
    assert!(!looks_like_safetensors(&[2, 0, 0, 0, 0, 0, 0, 0]));
    assert!(!looks_like_safetensors(&[1, 0, 0, 0, 0, 0, 0, 0, b'{']));
    let mut truncated = file("{}", &[]);
    truncated[0] = 3;
    assert!(!looks_like_safetensors(&truncated));
    // A header length above 32 bits is not cut down.
    let mut large = file("{}", &[]);
    large[4] = 1;
    assert!(!looks_like_safetensors(&large));
}

#[test]
fn heads_are_described() {
    assert_eq!(
        describe_head(b"<html>\n\"a\\b\""),
        "12 bytes, starts with \"<html>.\\\"a\\\\b\\\"\""
    );
    assert_eq!(describe_head(b""), "0 bytes, starts with \"\"");
    let long = [b'x'; 100];
    assert_eq!(
        describe_head(&long),
        format!("100 bytes, starts with \"{}\"", "x".repeat(32))
    );
    assert_eq!(describe_head(&[0x7f, 0xff, b'~']), "3 bytes, starts with \"..~\"");
}

#[test]
fn loading_is_judged() {
    let names: Vec<String> = ["a", "b\"", "c"].iter().map(|s| s.to_string()).collect();
    assert!(matches!(load_verdict(0, &Vec::new(), "missing", 5), Loaded::Complete));
    assert!(matches!(load_verdict(1, &names, "missing", 5), Loaded::Errors));
    match load_verdict(0, &names, "missing", 2) {
        Loaded::Missing(text) => assert_eq!(text, "missing 3 params, e.g. [\"a\", \"b\\\"\"]"),
        _ => panic!("complete"),
    }
    match load_verdict(0, &names, "missing", 0) {
        Loaded::Missing(text) => assert_eq!(text, "missing 3 params, e.g. []"),
        _ => panic!("complete"),
    }
}

#[test]
fn prefixes_become_patterns() {
    assert_eq!(prefix_pattern("decoder."), "^decoder\\.");
    assert_eq!(prefix_pattern("a.b.c"), "^a\\.b\\.c");
    assert_eq!(prefix_pattern(""), "^");
}

#[test]
fn keys_are_rewritten() {
    assert_eq!(unet_remaps()[0], ("\\.ff\\.net\\.0\\.proj\\.", ".ff.proj_in."));
    assert_eq!(unet_remaps()[1], ("\\.ff\\.net\\.2\\.", ".ff.proj_out."));
    assert_eq!(vae_remaps()[0], ("\\.to_q\\.", ".query."));
    assert_eq!(vae_remaps()[1], ("\\.to_k\\.", ".key."));
    assert_eq!(vae_remaps()[2], ("\\.to_v\\.", ".value."));
    assert_eq!(vae_remaps()[3], ("\\.to_out\\.0\\.", ".proj_attn."));
}
