use rustic::path::{
    respond_to_emissive_hit, roulette_applies, samples_lights, EmissiveResponse, LobeType,
    NextEventEstimation,
};

#[test]
fn nee_codes_round_trip() {
    for mode in [
        NextEventEstimation::Off,
        NextEventEstimation::MultipleImportanceSampling,
        NextEventEstimation::DirectLightSampling,
    ] {
        assert!(NextEventEstimation::from_u32(mode.to_u32()) == mode);
    }
    assert_eq!(NextEventEstimation::MultipleImportanceSampling.to_u32(), 1);
    assert_eq!(NextEventEstimation::DirectLightSampling.to_u32(), 2);
    assert!(NextEventEstimation::from_u32(9) == NextEventEstimation::Off);
}

#[test]
fn nee_mode_queries() {
    assert!(!NextEventEstimation::Off.uses_nee());
    assert!(NextEventEstimation::DirectLightSampling.uses_nee());
    assert!(!NextEventEstimation::DirectLightSampling.uses_mis());
    assert!(NextEventEstimation::MultipleImportanceSampling.uses_mis());
    assert_eq!(NextEventEstimation::MultipleImportanceSampling.label(), "MIS");
    assert_eq!(NextEventEstimation::DirectLightSampling.label(), "Direct only");
    assert_eq!(NextEventEstimation::Off.label(), "None");
}

#[test]
fn lobe_defaults_to_diffuse() {
    assert!(LobeType::default() == LobeType::DiffuseReflection);
}

#[test]
fn back_face_of_emitter_contributes_nothing() {
    for mode in [
        NextEventEstimation::Off,
        NextEventEstimation::MultipleImportanceSampling,
        NextEventEstimation::DirectLightSampling,
    ] {
        for bounce in [0, 1, 5] {
            let r = respond_to_emissive_hit(mode, bounce, LobeType::DiffuseReflection, true);
            assert!(r == EmissiveResponse::Absorb);
            let r = respond_to_emissive_hit(mode, bounce, LobeType::SpecularReflection, true);
            assert!(r == EmissiveResponse::Absorb);
        }
    }
}

#[test]
fn emission_added_without_light_sampling_or_on_camera_ray() {
    let r = respond_to_emissive_hit(NextEventEstimation::Off, 3, LobeType::DiffuseReflection, false);
    assert!(r == EmissiveResponse::AddEmission);
    let r = respond_to_emissive_hit(
        NextEventEstimation::MultipleImportanceSampling,
        0,
        LobeType::DiffuseReflection,
        false,
    );
    assert!(r == EmissiveResponse::AddEmission);
    let r = respond_to_emissive_hit(
        NextEventEstimation::DirectLightSampling,
        2,
        LobeType::SpecularReflection,
        false,
    );
    assert!(r == EmissiveResponse::AddEmission);
}

#[test]
fn diffuse_bounce_onto_emitter_with_light_sampling() {
    let r = respond_to_emissive_hit(
        NextEventEstimation::MultipleImportanceSampling,
        2,
        LobeType::DiffuseReflection,
        false,
    );
    assert!(r == EmissiveResponse::AddMisContribution);
    let r = respond_to_emissive_hit(
        NextEventEstimation::DirectLightSampling,
        2,
        LobeType::DiffuseReflection,
        false,
    );
    assert!(r == EmissiveResponse::EndSilently);
}

#[test]
fn light_sampling_only_on_diffuse_bounces() {
    assert!(samples_lights(NextEventEstimation::MultipleImportanceSampling, LobeType::DiffuseReflection));
    assert!(samples_lights(NextEventEstimation::DirectLightSampling, LobeType::DiffuseReflection));
    assert!(!samples_lights(NextEventEstimation::Off, LobeType::DiffuseReflection));
    assert!(!samples_lights(
        NextEventEstimation::MultipleImportanceSampling,
        LobeType::SpecularReflection
    ));
}

#[test]
fn roulette_starts_strictly_after_min_bounces() {
    assert!(!roulette_applies(3, 3));
    assert!(roulette_applies(4, 3));
    assert!(!roulette_applies(0, 0));
    assert!(roulette_applies(1, 0));
}
