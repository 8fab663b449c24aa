use rho_tui::statusline::{estimated_cost_usd_micros, usage_parts, BillingInfo, ContextMarker, StatusLineState, UsagePart};
use rho_tui::usage::{estimated_usage_cost, merge_usage, ContextUsage, ModelCost, ModelMetadata, ModelUsage};

fn priced_metadata() -> ModelMetadata {
    ModelMetadata {
        cost_default: Some(ModelCost {
            input_micros_per_m: Some(1_000_000),
            output_micros_per_m: Some(2_000_000),
            cache_read_micros_per_m: Some(100_000),
            cache_write_micros_per_m: None,
        }),
        ..ModelMetadata::default()
    }
}

#[test]
fn estimated_usage_cost_uses_normalized_input_and_cache_read() {
    let metadata = ModelMetadata {
        cost_default: Some(ModelCost {
            input_micros_per_m: Some(1_000_000),
            output_micros_per_m: Some(2_000_000),
            cache_read_micros_per_m: Some(100_000),
            cache_write_micros_per_m: Some(500_000),
        }),
        ..ModelMetadata::default()
    };
    let usage = ModelUsage {
        input_tokens: Some(300_000),
        cache_read_tokens: Some(700_000),
        output_tokens: Some(100_000),
        cache_write_tokens: Some(10_000),
        ..ModelUsage::default()
    };

    assert_eq!(estimated_usage_cost(&usage, Some(&metadata)), Some(575_000));
}

#[test]
fn statusline_estimated_statusline_cost_uses_normalized_input_and_cache_read() {
    let usage = ModelUsage {
        input_tokens: Some(300_000),
        cache_read_tokens: Some(700_000),
        output_tokens: Some(100_000),
        ..ModelUsage::default()
    };

    assert_eq!(
        estimated_cost_usd_micros(&usage, Some(&priced_metadata())),
        Some(570_000)
    );
}

#[test]
fn statusline_tests_estimated_statusline_cost_uses_normalized_input_and_cache_read() {
    let usage = ModelUsage {
        input_tokens: Some(300_000),
        cache_read_tokens: Some(700_000),
        output_tokens: Some(100_000),
        ..ModelUsage::default()
    };

    assert_eq!(
        estimated_cost_usd_micros(&usage, Some(&priced_metadata())),
        Some(570_000)
    );
}

#[test]
fn unpriced_usage_has_no_estimate() {
    let usage = ModelUsage {
        input_tokens: Some(300_000),
        ..ModelUsage::default()
    };
    assert_eq!(estimated_usage_cost(&usage, None), None);
    assert_eq!(estimated_usage_cost(&ModelUsage::default(), Some(&priced_metadata())), None);
}

#[test]
fn merging_usage_adds_every_count() {
    let mut total = None;
    merge_usage(
        &mut total,
        ModelUsage {
            input_tokens: Some(10),
            output_tokens: Some(5),
            ..ModelUsage::default()
        },
    );
    merge_usage(
        &mut total,
        ModelUsage {
            input_tokens: Some(1),
            cache_read_tokens: Some(7),
            ..ModelUsage::default()
        },
    );
    let total = total.unwrap();
    assert_eq!(total.input_tokens, Some(11));
    assert_eq!(total.output_tokens, Some(5));
    assert_eq!(total.cache_read_tokens, Some(7));
}

#[test]
fn subscription_billing_is_labelled() {
    assert_eq!(BillingInfo::from_provider_auth("openai-codex", "api-key").label(), Some("sub"));
    assert_eq!(BillingInfo::from_provider_auth("openai", "codex").label(), Some("sub"));
    assert_eq!(BillingInfo::from_provider_auth("openai", "api-key").label(), None);
}

fn priced_state(usage: ModelUsage) -> StatusLineState {
    StatusLineState {
        cwd: "/tmp/project".into(),
        branch: None,
        status: "idle".into(),
        usage: Some(usage),
        latest_usage: Some(usage),
        context_usage: None,
        provider: "openai".into(),
        model: "gpt-test".into(),
        reasoning: "low".into(),
        billing: BillingInfo::Metered,
        model_metadata: Some(priced_metadata()),
        model_metadata_loading: false,
    }
}

fn cache_hit_part(parts: &[UsagePart]) -> Option<UsagePart> {
    parts.iter().copied().find(|p| matches!(p, UsagePart::CacheHit { .. }))
}

fn context_part(parts: &[UsagePart]) -> Option<UsagePart> {
    parts.iter().copied().find(|p| matches!(p, UsagePart::Context { .. }))
}

#[test]
fn statusline_cache_hit_percentage_uses_latest_usage_prompt_tokens() {
    let usage = ModelUsage {
        input_tokens: Some(300_000),
        cache_read_tokens: Some(700_000),
        output_tokens: Some(100_000),
        ..ModelUsage::default()
    };

    let parts = usage_parts(&priced_state(usage));

    assert!(parts.contains(&UsagePart::Input(300_000)), "{parts:?}");
    assert!(parts.contains(&UsagePart::CacheRead(700_000)), "{parts:?}");
    // 70.0% of the latest prompt tokens came from the cache.
    assert_eq!(
        cache_hit_part(&parts),
        Some(UsagePart::CacheHit { cache_read: 700_000, prompt_tokens: 1_000_000 })
    );
    assert!(parts.contains(&UsagePart::Cost(570_000)), "{parts:?}");
}

#[test]
fn statusline_cache_hit_percentage_uses_latest_usage_not_cumulative_totals() {
    let mut state = priced_state(ModelUsage {
        input_tokens: Some(1_000_000),
        cache_read_tokens: Some(1_000_000),
        output_tokens: Some(100_000),
        cache_write_tokens: Some(500_000),
        ..ModelUsage::default()
    });
    state.latest_usage = Some(ModelUsage {
        input_tokens: Some(100_000),
        cache_read_tokens: Some(900_000),
        cache_write_tokens: Some(500_000),
        ..ModelUsage::default()
    });

    let parts = usage_parts(&state);
    let hit = cache_hit_part(&parts);

    assert!(parts.contains(&UsagePart::Input(1_000_000)), "{parts:?}");
    assert!(parts.contains(&UsagePart::CacheRead(1_000_000)), "{parts:?}");
    assert!(parts.contains(&UsagePart::CacheWrite(500_000)), "{parts:?}");
    // 90.0% from the latest turn, not a share of the cumulative totals.
    assert_eq!(hit, Some(UsagePart::CacheHit { cache_read: 900_000, prompt_tokens: 1_000_000 }));
    assert_ne!(hit, Some(UsagePart::CacheHit { cache_read: 1_000_000, prompt_tokens: 2_500_000 }));
    assert_ne!(hit, Some(UsagePart::CacheHit { cache_read: 1_000_000, prompt_tokens: 2_000_000 }));
}

#[test]
fn statusline_context_percentage_uses_current_context_not_cumulative_usage() {
    let mut state = priced_state(ModelUsage {
        input_tokens: Some(60_000),
        output_tokens: Some(40_000),
        ..ModelUsage::default()
    });
    state.context_usage = Some(ContextUsage::estimated(10_000, Some(100_000)));
    state.model_metadata = Some(ModelMetadata {
        advertised_context_window: Some(100_000),
        ..priced_metadata()
    });

    let context = context_part(&usage_parts(&state));

    // "~10.0%/100.0k": an estimate of 10,000 tokens in a 100,000 window.
    assert_eq!(
        context,
        Some(UsagePart::Context { marker: ContextMarker::Estimated, tokens: Some(10_000), window: 100_000 })
    );
    assert!(!matches!(context, Some(UsagePart::Context { tokens: Some(100_000), .. })));
}

#[test]
fn statusline_provider_reported_context_omits_estimate_marker() {
    let mut state = priced_state(ModelUsage::default());
    state.context_usage = Some(ContextUsage::provider_reported(25_000, Some(100_000)));

    let context = context_part(&usage_parts(&state));

    // "25.0%/100.0k", with no estimate marker.
    assert_eq!(
        context,
        Some(UsagePart::Context { marker: ContextMarker::Reported, tokens: Some(25_000), window: 100_000 })
    );
    assert!(!matches!(context, Some(UsagePart::Context { marker: ContextMarker::Estimated, .. })));
}

#[test]
fn statusline_tests_cache_hit_percentage_uses_latest_usage_prompt_tokens() {
    let usage = ModelUsage {
        input_tokens: Some(300_000),
        cache_read_tokens: Some(700_000),
        output_tokens: Some(100_000),
        ..ModelUsage::default()
    };

    let parts = usage_parts(&priced_state(usage));

    assert!(parts.contains(&UsagePart::Input(300_000)), "{parts:?}");
    assert!(parts.contains(&UsagePart::CacheRead(700_000)), "{parts:?}");
    // 70.0% of the latest prompt tokens came from the cache.
    assert_eq!(
        cache_hit_part(&parts),
        Some(UsagePart::CacheHit { cache_read: 700_000, prompt_tokens: 1_000_000 })
    );
    assert!(parts.contains(&UsagePart::Cost(570_000)), "{parts:?}");
}

#[test]
fn statusline_tests_cache_hit_percentage_uses_latest_usage_not_cumulative_totals() {
    let mut state = priced_state(ModelUsage {
        input_tokens: Some(1_000_000),
        cache_read_tokens: Some(1_000_000),
        output_tokens: Some(100_000),
        cache_write_tokens: Some(500_000),
        ..ModelUsage::default()
    });
    state.latest_usage = Some(ModelUsage {
        input_tokens: Some(100_000),
        cache_read_tokens: Some(900_000),
        cache_write_tokens: Some(500_000),
        ..ModelUsage::default()
    });

    let parts = usage_parts(&state);
    let hit = cache_hit_part(&parts);

    assert!(parts.contains(&UsagePart::Input(1_000_000)), "{parts:?}");
    assert!(parts.contains(&UsagePart::CacheRead(1_000_000)), "{parts:?}");
    assert!(parts.contains(&UsagePart::CacheWrite(500_000)), "{parts:?}");
    // 90.0% from the latest turn, not a share of the cumulative totals.
    assert_eq!(hit, Some(UsagePart::CacheHit { cache_read: 900_000, prompt_tokens: 1_000_000 }));
    assert_ne!(hit, Some(UsagePart::CacheHit { cache_read: 1_000_000, prompt_tokens: 2_500_000 }));
    assert_ne!(hit, Some(UsagePart::CacheHit { cache_read: 1_000_000, prompt_tokens: 2_000_000 }));
}

#[test]
fn statusline_tests_context_percentage_uses_current_context_not_cumulative_usage() {
    let mut state = priced_state(ModelUsage {
        input_tokens: Some(60_000),
        output_tokens: Some(40_000),
        ..ModelUsage::default()
    });
    state.context_usage = Some(ContextUsage::estimated(10_000, Some(100_000)));
    state.model_metadata = Some(ModelMetadata {
        advertised_context_window: Some(100_000),
        ..priced_metadata()
    });

    let context = context_part(&usage_parts(&state));

    // "~10.0%/100.0k": an estimate of 10,000 tokens in a 100,000 window.
    assert_eq!(
        context,
        Some(UsagePart::Context { marker: ContextMarker::Estimated, tokens: Some(10_000), window: 100_000 })
    );
    assert!(!matches!(context, Some(UsagePart::Context { tokens: Some(100_000), .. })));
}

#[test]
fn statusline_tests_provider_reported_context_omits_estimate_marker() {
    let mut state = priced_state(ModelUsage::default());
    state.context_usage = Some(ContextUsage::provider_reported(25_000, Some(100_000)));

    let context = context_part(&usage_parts(&state));

    // "25.0%/100.0k", with no estimate marker.
    assert_eq!(
        context,
        Some(UsagePart::Context { marker: ContextMarker::Reported, tokens: Some(25_000), window: 100_000 })
    );
    assert!(!matches!(context, Some(UsagePart::Context { marker: ContextMarker::Estimated, .. })));
}
