use lora_inspect::{LoadError, LoraData, LoraType, ModelType, NetworkType};

fn container(header: &str, payload: usize) -> Vec<u8> {
    let mut file = (header.len() as u64).to_le_bytes().to_vec();
    file.extend_from_slice(header.as_bytes());
    file.resize(file.len() + payload, 0);
    file
}

#[test]
fn base_model_from_metadata() {
    let file = container(r#"{"__metadata__":{"ss_sd_model_name":"foo.safetensors"}}"#, 0);
    let data = LoraData::from_buffer(&file).unwrap();
    assert_eq!(data.base_model, Some("foo.safetensors".to_string()));
    assert_eq!(data.metadata_value("ss_tag_frequency"), None);
    assert_eq!(
        data.raw_metadata,
        vec![("ss_sd_model_name".to_string(), "foo.safetensors".to_string())]
    );
    assert!(data.tensors.is_empty());
    assert!(data.model_types.is_empty());
}

#[test]
fn metadata_table_is_kept_whole() {
    let file = container(
        r#"{"__metadata__":{"ss_network_dim":"32","ss_tag_frequency":"{\"a\":{\"x\":1}}","b":""}}"#,
        0,
    );
    let data = LoraData::build(&file);
    let mut table = data.raw_metadata.clone();
    table.sort();
    assert_eq!(
        table,
        vec![
            ("b".to_string(), "".to_string()),
            ("ss_network_dim".to_string(), "32".to_string()),
            ("ss_tag_frequency".to_string(), r#"{"a":{"x":1}}"#.to_string()),
        ]
    );
    assert_eq!(data.base_model, None);
    assert_eq!(data.metadata_value("ss_network_dim"), Some("32".to_string()));
}

#[test]
fn missing_metadata_table_is_empty() {
    let file = container(r#"{"w":{"dtype":"U8","shape":[3],"data_offsets":[0,3]}}"#, 3);
    let data = LoraData::from_buffer(&file).unwrap();
    assert!(data.raw_metadata.is_empty());
    assert_eq!(data.base_model, None);
    assert_eq!(data.tensors, vec![("w".to_string(), vec![3])]);
}

#[test]
fn tensors_sorted_by_name_and_classified() {
    let header = [
        r#"{"lora_unet_b.lora_up.weight":{"dtype":"F32","shape":[4,2],"data_offsets":[0,32]},"#,
        r#""lora_unet_a.dora_scale":{"dtype":"F32","shape":[1,4],"data_offsets":[32,48]},"#,
        r#""lora_unet_a.lora_down.weight":{"dtype":"F32","shape":[2,4],"data_offsets":[48,80]},"#,
        r#""lora_te1_z.hada_w1_a":{"dtype":"U8","shape":[2],"data_offsets":[80,82]}}"#,
    ]
    .concat();
    let file = container(&header, 82);
    let data = LoraData::from_buffer(&file).unwrap();
    let names: Vec<&str> = data.tensors.iter().map(|(n, _)| n.as_str()).collect();
    assert_eq!(
        names,
        vec![
            "lora_te1_z.hada_w1_a",
            "lora_unet_a.dora_scale",
            "lora_unet_a.lora_down.weight",
            "lora_unet_b.lora_up.weight",
        ]
    );
    assert_eq!(data.tensors[0].1, vec![2]);
    assert_eq!(data.tensors[1].1, vec![1, 4]);
    assert_eq!(data.tensors[3].1, vec![4, 2]);
    assert_eq!(
        data.model_types,
        vec![
            ModelType::Lora(LoraType::DoRA(NetworkType::Unet)),
            ModelType::Lora(LoraType::LoHa(NetworkType::SdxlClip)),
        ]
    );
}

#[test]
fn catalog_order_is_byte_order() {
    let header = [
        r#"{"b":{"dtype":"U8","shape":[1],"data_offsets":[0,1]},"#,
        r#""B":{"dtype":"U8","shape":[1],"data_offsets":[1,2]},"#,
        r#""ab":{"dtype":"U8","shape":[1],"data_offsets":[2,3]},"#,
        r#""a":{"dtype":"U8","shape":[1],"data_offsets":[3,4]}}"#,
    ]
    .concat();
    let data = LoraData::build(&container(&header, 4));
    let names: Vec<&str> = data.tensors.iter().map(|(n, _)| n.as_str()).collect();
    assert_eq!(names, vec!["B", "a", "ab", "b"]);
}

#[test]
fn refused_buffer_is_an_error() {
    let file = container("not json", 0);
    assert!(matches!(LoraData::from_buffer(&file), Err(LoadError::InvalidContainer(_))));
    assert!(matches!(LoraData::from_buffer(&[1, 2, 3]), Err(LoadError::InvalidContainer(_))));
}

#[test]
fn wrong_payload_length_is_an_error() {
    let file = container(r#"{"w":{"dtype":"U8","shape":[3],"data_offsets":[0,3]}}"#, 2);
    assert!(LoraData::from_buffer(&file).is_err());
}

#[test]
fn build_never_fails() {
    let data = LoraData::build(&container("{", 5));
    assert!(data.raw_metadata.is_empty());
    assert_eq!(data.base_model, None);
    assert!(data.tensors.is_empty());
    assert!(data.model_types.is_empty());
    let empty = LoraData::build(&[]);
    assert!(empty.raw_metadata.is_empty() && empty.tensors.is_empty());
}

#[test]
fn default_record_is_empty() {
    let data = LoraData::default();
    assert!(data.raw_metadata.is_empty());
    assert_eq!(data.base_model, None);
    assert!(data.tensors.is_empty());
    assert!(data.model_types.is_empty());
}

#[test]
fn overflowing_offset_is_refused_before_parsing() {
    let file = container(
        r#"{"w":{"dtype":"U8","shape":[18446744073709551600],"data_offsets":[0,18446744073709551600]}}"#,
        0,
    );
    assert!(!lora_inspect::offsets_fit_exec(&file));
    assert!(matches!(LoraData::from_buffer(&file), Err(LoadError::OffsetOverflow)));
    assert!(LoraData::build(&file).tensors.is_empty());
}

#[test]
fn large_offset_that_fits_reaches_the_parser() {
    let file = container(
        r#"{"w":{"dtype":"U8","shape":[1],"data_offsets":[0,10000000000000000000]}}"#,
        0,
    );
    assert!(lora_inspect::offsets_fit_exec(&file));
    assert!(matches!(LoraData::from_buffer(&file), Err(LoadError::InvalidContainer(_))));
}

#[test]
fn long_digit_runs_in_metadata_are_kept() {
    let file = container(
        r#"{"__metadata__":{"note":"a, 12345678901234567890","id":"123456789012345678901234"}}"#,
        0,
    );
    let data = LoraData::from_buffer(&file).unwrap();
    assert_eq!(data.metadata_value("note"), Some("a, 12345678901234567890".to_string()));
    assert_eq!(data.metadata_value("id"), Some("123456789012345678901234".to_string()));
}

#[test]
fn zero_size_tensor_with_huge_dimension_is_kept() {
    let file = container(
        r#"{"empty":{"dtype":"F32","shape":[10000000000000000000,0],"data_offsets":[0,0]}}"#,
        0,
    );
    let data = LoraData::from_buffer(&file).unwrap();
    assert_eq!(data.tensors, vec![("empty".to_string(), vec![10000000000000000000, 0])]);
}
