use hftbacktest::assettype::AssetType;
use hftbacktest::assettype::InverseAsset;
use hftbacktest::assettype::LinearAsset;
use hftbacktest::decimal::Decimal;
use hftbacktest::depth::BTreeMarketDepth;
use hftbacktest::depth::L2MarketDepth;
use hftbacktest::lifecycle::Order;
use hftbacktest::lifecycle::OrderFill;
use hftbacktest::lifecycle::OrderStatus;
use hftbacktest::models::fee::CommonFees;
use hftbacktest::models::fee::DirectionalFees;
use hftbacktest::models::fee::FeeModel;
use hftbacktest::models::fee::FlatPerTradeFeeModel;
use hftbacktest::models::fee::TradingQtyFeeModel;
use hftbacktest::models::fee::TradingValueFeeModel;
use hftbacktest::models::queue::shrink_front;
use hftbacktest::models::queue::OrderTerms;
use hftbacktest::models::queue::QueueModel;
use hftbacktest::models::queue::clamp_probability;
use hftbacktest::models::queue::ProbQueueModel;
use hftbacktest::models::queue::Probability;
use hftbacktest::models::queue::QueuePos;
use hftbacktest::models::queue::RiskAdverseQueueModel;
use hftbacktest::processor::modify::plan_modify;
use hftbacktest::processor::modify::ModifyPlan;
use hftbacktest::processor::modify::OrderAmendment;
use hftbacktest::processor::price_match::price_satisfies_rule;
use hftbacktest::processor::price_match::resolve_price_match;
use hftbacktest::processor::price_match::validate_price_match;
use hftbacktest::rules::TickSizeChange;
use hftbacktest::rules::TickSizeError;
use hftbacktest::rules::TickSizeSchedule;
use hftbacktest::state::State;
use hftbacktest::types::OrdType;
use hftbacktest::types::PriceMatch;
use hftbacktest::types::Side;
use hftbacktest::types::TimeInForce;
use hftbacktest::wire::from_str_to_price_match;
use hftbacktest::wire::from_str_to_side;
use hftbacktest::wire::from_str_to_status;
use hftbacktest::wire::from_str_to_tif;
use hftbacktest::wire::from_str_to_type;

fn exact_fill() {
    let mut depth = BTreeMarketDepth::new();
    let price = Decimal::new(10025, 2);
    depth.update_bid_depth(price, Decimal::new(125, 2), 0);
    let order = OrderTerms {
        order_id: 1,
        side: Side::Buy,
        price,
    };
    let model = RiskAdverseQueueModel::<BTreeMarketDepth>::new();
    let state = model.new_order(&order, &depth);
    let (_, executed) = model
        .trade(&order, state, Decimal::new(130, 2), &depth)
        .expect("quantity should be representable");
    assert_eq!(executed, Decimal::new(5, 2));
}

#[test]
fn risk_adverse_fill_uses_exact_quantity_without_lot_rounding() {
    exact_fill();
}

#[test]
fn queue_risk_adverse_fill_uses_exact_quantity_without_lot_rounding() {
    exact_fill();
}

#[test]
fn risk_adverse_queue_ignores_the_depth() {
    let depth = BTreeMarketDepth::new();
    let order = OrderTerms {
        order_id: 1,
        side: Side::Buy,
        price: Decimal::from_int(100),
    };
    let model = RiskAdverseQueueModel::<BTreeMarketDepth>::new();
    let state = model
        .depth(
            &order,
            Decimal::from_int(9),
            Decimal::from_int(9),
            Decimal::from_int(4),
            &depth,
        )
        .expect("quantity should be representable");
    assert_eq!(state, Decimal::from_int(9));
}

#[test]
fn the_front_of_the_queue_shrinks_by_its_share() {
    assert_eq!(
        shrink_front(
            Decimal::from_int(10),
            Decimal::from_int(10),
            Decimal::from_int(4),
            Decimal::new(25, 2),
        ),
        Some(Decimal::from_int(7))
    );
}

struct Fixed(Decimal);

impl Probability for Fixed {
    fn prob(&self, _front: Decimal, _back: Decimal) -> Decimal {
        self.0
    }
}

#[test]
fn probabilities_are_brought_between_zero_and_one() {
    assert_eq!(clamp_probability(Decimal::from_int(-1)), Decimal::zero());
    assert_eq!(clamp_probability(Decimal::from_int(3)), Decimal::one());
    assert_eq!(clamp_probability(Decimal::new(25, 2)), Decimal::new(25, 2));
    let order = OrderTerms {
        order_id: 1,
        side: Side::Buy,
        price: Decimal::from_int(100),
    };
    let state = QueuePos {
        front_q_qty: Decimal::from_int(10),
        cum_trade_qty: Decimal::zero(),
    };
    for (probability, front) in [(-2, 6), (0, 6), (1, 10), (5, 10)] {
        let model = ProbQueueModel::<_, BTreeMarketDepth>::new(Fixed(Decimal::from_int(probability)));
        let after = model
            .depth(
                &order,
                state,
                Decimal::from_int(20),
                Decimal::from_int(16),
                &BTreeMarketDepth::new(),
            )
            .expect("quantities should be representable");
        assert_eq!(after.front_q_qty, Decimal::from_int(front));
    }
}

#[test]
fn switch_is_left_closed_and_last_rule_does_not_expire() {
    let schedule = TickSizeSchedule::new(vec![
        TickSizeChange {
            effective_from: 10,
            tick_size: Decimal::new(1, 2),
        },
        TickSizeChange {
            effective_from: 20,
            tick_size: Decimal::new(1, 1),
        },
    ])
    .expect("valid schedule should build");
    assert_eq!(
        schedule.at(9),
        Err(TickSizeError::Uncovered {
            timestamp: 9,
            first: 10
        })
    );
    assert_eq!(schedule.at(10), Ok(Decimal::new(1, 2)));
    assert_eq!(schedule.at(19), Ok(Decimal::new(1, 2)));
    assert_eq!(schedule.at(20), Ok(Decimal::new(1, 1)));
    assert_eq!(schedule.at(i64::MAX), Ok(Decimal::new(1, 1)));
}

#[test]
fn rejects_invalid_configuration() {
    assert_eq!(
        TickSizeSchedule::new(vec![]).err(),
        Some(TickSizeError::Empty)
    );
    assert_eq!(
        TickSizeSchedule::new(vec![TickSizeChange {
            effective_from: 0,
            tick_size: Decimal::zero()
        }])
        .err(),
        Some(TickSizeError::NonPositive(0))
    );
    for second in [-1, 0] {
        assert_eq!(
            TickSizeSchedule::new(vec![
                TickSizeChange {
                    effective_from: 0,
                    tick_size: Decimal::one()
                },
                TickSizeChange {
                    effective_from: second,
                    tick_size: Decimal::one()
                },
            ])
            .err(),
            Some(TickSizeError::Unordered)
        );
    }
}

#[test]
fn inverse_asset_uses_decimal_division_for_amount_and_equity() {
    let asset = InverseAsset::new(Decimal::from_int(100));

    assert_eq!(
        asset.amount(Decimal::from_int(4), Decimal::from_int(3)),
        Some(Decimal::from_int(75))
    );
    assert_eq!(
        asset.equity(
            Decimal::from_int(5),
            Decimal::from_int(-75),
            Decimal::from_int(3),
            Decimal::new(5, 1),
        ),
        Some(Decimal::new(145, 1))
    );
}

#[test]
fn linear_asset_multiplies() {
    let asset = LinearAsset::new(Decimal::from_int(10));
    assert_eq!(
        asset.amount(Decimal::from_int(4), Decimal::from_int(3)),
        Some(Decimal::from_int(120))
    );
    assert_eq!(
        asset.equity(
            Decimal::from_int(5),
            Decimal::from_int(-100),
            Decimal::from_int(3),
            Decimal::new(5, 1),
        ),
        Some(Decimal::new(495, 1))
    );
}

fn two_rules() -> TickSizeSchedule {
    TickSizeSchedule::new(vec![
        TickSizeChange {
            effective_from: 0,
            tick_size: Decimal::new(1, 2),
        },
        TickSizeChange {
            effective_from: 10,
            tick_size: Decimal::new(1, 1),
        },
    ])
    .expect("schedule should be valid")
}

#[test]
fn price_match_is_exempt_from_explicit_tick_validation() {
    let schedule = two_rules();
    let mut order = Order::new(
        1,
        Decimal::new(10005, 2),
        Decimal::one(),
        Side::Buy,
        OrdType::Limit,
        TimeInForce::GTC,
    );
    assert!(price_satisfies_rule(&order.price_instruction(), 9, &schedule).unwrap());
    assert!(!price_satisfies_rule(&order.price_instruction(), 10, &schedule).unwrap());
    order.price_match = PriceMatch::Opponent;
    assert!(price_satisfies_rule(&order.price_instruction(), 10, &schedule).unwrap());
    order.price_match = PriceMatch::Explicit;
    order.order_type = OrdType::Market;
    assert!(price_satisfies_rule(&order.price_instruction(), 10, &schedule).unwrap());
}

#[test]
fn price_match_finds_the_level_and_is_for_limit_orders() {
    let mut depth = BTreeMarketDepth::new();
    for price in 101..=110 {
        depth.update_ask_depth(Decimal::from_int(price), Decimal::one(), 0);
    }
    let mut order = Order::new(
        1,
        Decimal::zero(),
        Decimal::one(),
        Side::Buy,
        OrdType::Limit,
        TimeInForce::GTC,
    );
    order.price_match = PriceMatch::Opponent5;
    assert_eq!(
        resolve_price_match(&order.price_instruction(), &depth),
        Some(Decimal::from_int(105))
    );
    order.price_match = PriceMatch::Opponent20;
    assert_eq!(resolve_price_match(&order.price_instruction(), &depth), None);
    assert!(validate_price_match(OrdType::Market, PriceMatch::Queue).is_err());
    assert!(validate_price_match(OrdType::Limit, PriceMatch::Queue).is_ok());
}

fn coarse_rules() -> TickSizeSchedule {
    TickSizeSchedule::new(vec![
        TickSizeChange {
            effective_from: 0,
            tick_size: Decimal::new(1, 2),
        },
        TickSizeChange {
            effective_from: 10,
            tick_size: Decimal::one(),
        },
    ])
    .expect("test tick size schedule should be valid")
}

#[test]
fn switching_from_price_match_to_explicit_price_revalidates_tick_size() {
    let mut existing = Order::new(
        1,
        Decimal::new(10005, 2),
        Decimal::one(),
        Side::Buy,
        OrdType::Limit,
        TimeInForce::GTC,
    );
    existing.price_match = PriceMatch::Queue;

    let plan = plan_modify(
        &existing,
        OrderAmendment {
            price: existing.price,
            price_match: PriceMatch::Explicit,
            qty: existing.qty,
        },
        10,
        &BTreeMarketDepth::new(),
        &coarse_rules(),
    )
    .expect("modify should be planned");

    assert!(matches!(plan, ModifyPlan::Reject));
}

#[test]
fn crossing_gtx_modify_expires_on_both_sides() {
    let mut depth = BTreeMarketDepth::new();
    depth.update_bid_depth(Decimal::from_int(99), Decimal::one(), 0);
    depth.update_ask_depth(Decimal::from_int(101), Decimal::one(), 0);

    for (side, resting_price, crossing_price) in [
        (Side::Buy, Decimal::from_int(100), Decimal::from_int(101)),
        (Side::Sell, Decimal::from_int(102), Decimal::from_int(99)),
    ] {
        let existing = Order::new(
            1,
            resting_price,
            Decimal::one(),
            side,
            OrdType::Limit,
            TimeInForce::GTX,
        );
        let plan = plan_modify(
            &existing,
            OrderAmendment {
                price: crossing_price,
                price_match: PriceMatch::Explicit,
                qty: existing.qty,
            },
            0,
            &depth,
            &coarse_rules(),
        )
        .expect("modify should be planned");

        assert!(matches!(plan, ModifyPlan::Terminate(OrderStatus::Expired)));
    }
}

fn fill(maker: bool) -> OrderFill {
    OrderFill {
        price: Decimal::from_int(100),
        qty: Decimal::from_int(2),
        exch_timestamp: 0,
        is_maker: maker,
    }
}

#[test]
fn fees_follow_value_quantity_or_trade() {
    let fees = CommonFees::new(Decimal::new(1, 2), Decimal::new(2, 2));
    let value = Decimal::from_int(200);
    let by_value = TradingValueFeeModel::new(fees);
    assert_eq!(
        by_value.amount(&fill(true), Side::Buy, value),
        Some(Decimal::from_int(2))
    );
    assert_eq!(
        by_value.amount(&fill(false), Side::Buy, value),
        Some(Decimal::from_int(4))
    );
    let by_qty = TradingQtyFeeModel::new(fees);
    assert_eq!(
        by_qty.amount(&fill(false), Side::Sell, value),
        Some(Decimal::new(4, 2))
    );
    let flat = FlatPerTradeFeeModel::new(fees);
    assert_eq!(
        flat.amount(&fill(true), Side::Buy, value),
        Some(Decimal::new(1, 2))
    );
}

#[test]
fn directional_fees_add_up() {
    let fees = DirectionalFees::new(
        CommonFees::new(Decimal::new(1, 2), Decimal::new(2, 2)),
        Decimal::zero(),
        Decimal::new(5, 2),
    );
    let model = TradingValueFeeModel::new(fees);
    assert_eq!(
        model.amount(&fill(false), Side::Sell, Decimal::from_int(100)),
        Some(Decimal::from_int(7))
    );
    assert_eq!(
        model.amount(&fill(false), Side::Buy, Decimal::from_int(100)),
        Some(Decimal::from_int(2))
    );
}

#[test]
fn a_fill_moves_position_balance_and_fee() {
    let mut state = State::new(
        LinearAsset::new(Decimal::one()),
        TradingValueFeeModel::new(CommonFees::new(Decimal::zero(), Decimal::new(1, 2))),
    );
    state
        .apply_fill(Side::Sell, &fill(false))
        .expect("values should be representable");
    let values = state.values();
    assert_eq!(values.position, Decimal::from_int(-2));
    assert_eq!(values.balance, Decimal::from_int(200));
    assert_eq!(values.fee, Decimal::from_int(2));
    assert_eq!(values.num_trades, 1);
    assert_eq!(values.trading_volume, Decimal::from_int(2));
    assert_eq!(values.trading_value, Decimal::from_int(200));
    assert_eq!(
        state.equity(Decimal::from_int(90)),
        Some(Decimal::from_int(18))
    );
}

#[test]
fn parses_all_price_match_values() {
    for (value, expected) in [
        ("NONE", PriceMatch::Explicit),
        ("OPPONENT", PriceMatch::Opponent),
        ("OPPONENT_5", PriceMatch::Opponent5),
        ("OPPONENT_10", PriceMatch::Opponent10),
        ("OPPONENT_20", PriceMatch::Opponent20),
        ("QUEUE", PriceMatch::Queue),
        ("QUEUE_5", PriceMatch::Queue5),
        ("QUEUE_10", PriceMatch::Queue10),
        ("QUEUE_20", PriceMatch::Queue20),
    ] {
        let parsed = from_str_to_price_match(value).expect("value should be known");
        assert_eq!(parsed, expected);
        assert_eq!(expected.as_str(), value);
    }
}

#[test]
fn unknown_words_are_reported() {
    assert_eq!(from_str_to_side("BUY").expect("side"), Side::Buy);
    let error = from_str_to_side("buy").expect_err("words are in capitals");
    assert_eq!(error.found, "buy");
    assert_eq!(error.expected, "BUY or SELL");
    assert!(from_str_to_status("REJECTED").is_err());
    assert!(from_str_to_status("EXPIRED").is_ok());
    assert!(from_str_to_type("STOP").is_err());
    assert_eq!(from_str_to_type("MARKET").expect("type"), OrdType::Market);
    assert_eq!(from_str_to_tif("FOK").expect("tif"), TimeInForce::FOK);
    assert!(from_str_to_tif("GTD").is_err());
    assert!(from_str_to_price_match("QUEUE_1").is_err());
}
