use lora_inspect::{classify, LoraType, ModelType, NetworkType};

fn tag(name: &str) -> Option<ModelType> {
    ModelType::from_tensor_name(name, &[4, 4])
}

fn entries(names: &[&str]) -> Vec<(String, Vec<usize>)> {
    names.iter().map(|n| (n.to_string(), vec![1])).collect()
}

#[test]
fn checkpoint_prefixes() {
    assert_eq!(tag("conditioner.embedders.0.transformer.text_model.x"), Some(ModelType::SdxlCheckpoint));
    assert_eq!(tag("cond_stage_model.transformer.text_model.x"), Some(ModelType::SdCheckpoint));
}

#[test]
fn vae_prefixes() {
    assert_eq!(tag("encoder.down.0.block.0.conv1.weight"), Some(ModelType::StandaloneVae));
    assert_eq!(tag("first_stage_model.decoder.conv_in.weight"), Some(ModelType::BakedVae));
}

#[test]
fn adapter_targets_and_techniques() {
    assert_eq!(
        tag("lora_te_text_model_encoder_layers_0_mlp_fc1.lora_down.weight"),
        Some(ModelType::Lora(LoraType::LoRA(NetworkType::SdClip)))
    );
    assert_eq!(
        tag("lora_te1_text_model_encoder_layers_0_mlp_fc1.lora_up.weight"),
        Some(ModelType::Lora(LoraType::LoRA(NetworkType::SdxlClip)))
    );
    assert_eq!(
        tag("transformer.single_blocks.0.attn.to_q.lora_A.weight"),
        Some(ModelType::Lora(LoraType::LoRA(NetworkType::Transformer)))
    );
    assert_eq!(
        tag("transformer.single_blocks.0.attn.to_q.lora_B.weight"),
        Some(ModelType::Lora(LoraType::LoRA(NetworkType::Transformer)))
    );
    assert_eq!(
        tag("lora_unet_down_blocks_0_attentions_0_proj_in.hada_w1_a"),
        Some(ModelType::Lora(LoraType::LoHa(NetworkType::Unet)))
    );
    assert_eq!(
        tag("lora_unet_down_blocks_0_attentions_0_proj_in.lokr_w1"),
        Some(ModelType::Lora(LoraType::LoKr(NetworkType::Unet)))
    );
    assert_eq!(
        tag("lora_unet_down_blocks_0_attentions_0_proj_in.dora_scale"),
        Some(ModelType::Lora(LoraType::DoRA(NetworkType::Unet)))
    );
}

#[test]
fn unknown_names_get_no_tag() {
    assert_eq!(tag("model.diffusion_model.input_blocks.0.0.weight"), None);
    assert_eq!(tag("lora_unet_down_blocks_0.alpha"), None);
    assert_eq!(tag(""), None);
    assert_eq!(tag("lora_te"), None);
}

#[test]
fn conditioner_tensor_gives_only_checkpoint_tag() {
    let tensors = entries(&["conditioner.embedders.0.transformer.text_model.embeddings.weight"]);
    assert_eq!(classify(&tensors), vec![ModelType::SdxlCheckpoint]);
}

#[test]
fn weighted_low_rank_supersedes_plain_low_rank() {
    let tensors = entries(&[
        "lora_unet_a.lora_down.weight",
        "lora_unet_a.lora_up.weight",
        "lora_unet_a.dora_scale",
    ]);
    assert_eq!(classify(&tensors), vec![ModelType::Lora(LoraType::DoRA(NetworkType::Unet))]);
}

#[test]
fn superset_rule_is_per_target() {
    let tensors = entries(&[
        "lora_unet_a.lora_down.weight",
        "lora_unet_a.dora_scale",
        "lora_te_b.lora_down.weight",
    ]);
    assert_eq!(
        classify(&tensors),
        vec![
            ModelType::Lora(LoraType::LoRA(NetworkType::SdClip)),
            ModelType::Lora(LoraType::DoRA(NetworkType::Unet)),
        ]
    );
}

#[test]
fn classification_is_sorted_without_duplicates() {
    let tensors = entries(&[
        "encoder.x",
        "lora_te_b.lora_down.weight",
        "lora_unet_a.lora_up.weight",
        "first_stage_model.y",
        "lora_unet_c.lora_down.weight",
        "cond_stage_model.z",
    ]);
    let tags = classify(&tensors);
    assert_eq!(
        tags,
        vec![
            ModelType::SdCheckpoint,
            ModelType::Lora(LoraType::LoRA(NetworkType::Unet)),
            ModelType::Lora(LoraType::LoRA(NetworkType::SdClip)),
            ModelType::BakedVae,
            ModelType::StandaloneVae,
        ]
    );
    let mut sorted = tags.clone();
    sorted.sort();
    assert_eq!(tags, sorted);
}

#[test]
fn classification_is_stable() {
    let tensors = entries(&["lora_te1_a.hada_w1_a", "lora_unet_a.lokr_w1", "cond_stage_model.z"]);
    let first = classify(&tensors);
    let second = classify(&tensors);
    assert_eq!(first, second);
    let mut reversed = tensors.clone();
    reversed.reverse();
    assert_eq!(classify(&reversed), first);
}

#[test]
fn classification_of_nothing_is_empty() {
    assert_eq!(classify(&Vec::new()), Vec::<ModelType>::new());
}

#[test]
fn rank_matches_derived_order() {
    let mut all: Vec<ModelType> = (0..20).map(ModelType::from_rank).collect();
    let ranks: Vec<usize> = all.iter().map(|t| t.rank()).collect();
    assert_eq!(ranks, (0..20).collect::<Vec<usize>>());
    let before = all.clone();
    all.sort();
    assert_eq!(all, before);
}

#[test]
fn labels() {
    assert_eq!(NetworkType::Unet.label(), "UNet");
    assert_eq!(NetworkType::Transformer.label(), "Flux Transformer");
    assert_eq!(LoraType::DoRA(NetworkType::SdxlClip).label(), "SDXL Clip DoRA");
    assert_eq!(ModelType::Lora(LoraType::LoKr(NetworkType::SdClip)).label(), "SD Clip LoKr");
    assert_eq!(ModelType::SdCheckpoint.label(), "SD Checkpoint");
    assert_eq!(ModelType::SdxlCheckpoint.label(), "SDXL Checkpoint");
    assert_eq!(ModelType::BakedVae.label(), "Baked-in VAE");
    assert_eq!(ModelType::StandaloneVae.label(), "Standalone VAE");
}
