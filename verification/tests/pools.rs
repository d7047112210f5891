use ledger_model::amount::MAX_MANTISSA;
use ledger_model::{Amount, Asset, AssetCapture, AssetPool};
use rust_decimal::Decimal;

fn decimal_of(amount: Amount) -> Decimal {
    Decimal::from_i128_with_scale(amount.mantissa(), amount.scale())
}

fn pool_of(values: &[Amount]) -> AssetPool {
    let mut pool = AssetPool::new();
    for value in values {
        pool.load(Asset::new(*value));
    }
    pool
}

fn values_in(pool: &AssetPool) -> Vec<Option<Amount>> {
    (0..pool.len()).map(|i| pool.get(i)).collect()
}

#[test]
fn asset_pool_changes() {
    let mut asset_pool = AssetPool::new();

    let idx = asset_pool.load(Asset::new(Amount::new(5090, 2)));

    let new_amount = asset_pool
        .get_unchecked(idx)
        .checked_add(Amount::new(-9, 1))
        .unwrap();
    asset_pool.mutate_unchecked(idx, new_amount);

    let actual = asset_pool.get(idx);
    let expected = Some(Amount::new(5000, 2));

    assert_eq!(actual, expected);
    assert_eq!(
        decimal_of(actual.unwrap()),
        Decimal::new(5090, 2) + Decimal::new(-9, 1)
    );
}

#[test]
fn asset_pool_capture() {
    let mut asset_pool = AssetPool::new();

    let values = vec![Amount::new(42, 3), Amount::new(900, 0), Amount::new(500, 1)];

    for val in values.iter() {
        asset_pool.load(Asset::new(*val));
    }

    let captures = asset_pool.capture();

    assert_eq!(captures.len(), 3);
    for i in 0..3 {
        assert_eq!(values[i], captures[i].value);
        assert_eq!(captures[i].idx, i);
    }
    assert_eq!(asset_pool.len(), 3);
    assert_eq!(asset_pool.get(1), Some(Amount::new(900, 0)));
}

#[test]
fn asset_get_and_mutate() {
    let mut asset = Asset::new(Amount::new(1000, 2));
    assert_eq!(asset.get(), Amount::new(1000, 2));
    let more = asset.get().checked_add(Amount::new(100, 1)).unwrap();
    asset.mutate(more);
    assert_eq!(asset.get(), Amount::new(2000, 2));
}

#[test]
fn load_hands_out_rising_indices() {
    let mut pool = AssetPool::new();
    assert_eq!(pool.len(), 0);
    assert_eq!(pool.load(Asset::new(Amount::new(1, 0))), 0);
    assert_eq!(pool.load(Asset::new(Amount::new(2, 0))), 1);
    assert_eq!(pool.load(Asset::new(Amount::new(3, 0))), 2);
    assert_eq!(pool.len(), 3);
    assert_eq!(pool.get(0), Some(Amount::new(1, 0)));
    assert_eq!(pool.get(2), Some(Amount::new(3, 0)));
}

#[test]
fn get_beyond_the_pool_is_none() {
    let pool = pool_of(&[Amount::new(1, 0)]);
    assert_eq!(pool.get(1), None);
    assert_eq!(pool.get(usize::MAX), None);
    assert_eq!(AssetPool::new().get(0), None);
}

#[test]
fn mutate_tells_whether_the_asset_exists() {
    let mut pool = pool_of(&[Amount::new(1, 0), Amount::new(2, 0)]);
    assert!(pool.mutate(1, Amount::new(77, 1)));
    assert_eq!(pool.get(1), Some(Amount::new(77, 1)));
    assert_eq!(pool.get(0), Some(Amount::new(1, 0)));
    assert!(!pool.mutate(2, Amount::new(5, 0)));
    assert_eq!(values_in(&pool), vec![Some(Amount::new(1, 0)), Some(Amount::new(77, 1))]);
}

#[test]
fn unload_empties_the_pool() {
    let mut pool = pool_of(&[Amount::new(1, 0), Amount::new(2, 0)]);
    let assets = pool.unload();
    assert_eq!(assets.len(), 2);
    assert_eq!(assets[0].get(), Amount::new(1, 0));
    assert_eq!(assets[1].get(), Amount::new(2, 0));
    assert_eq!(pool.len(), 0);
    assert_eq!(pool.get(0), None);
    assert_eq!(pool.load(Asset::new(Amount::new(9, 0))), 0);
}

#[test]
fn reload_of_capture_restores_the_pool() {
    let values = [Amount::new(42, 3), Amount::new(900, 0), Amount::new(-500, 1), Amount::new(900, 0)];
    let pool = pool_of(&values);
    let back = AssetPool::reload(pool.capture());
    assert_eq!(back.len(), 4);
    for i in 0..4 {
        assert_eq!(back.get(i), Some(values[i]));
    }
    let empty = AssetPool::reload(AssetPool::new().capture());
    assert_eq!(empty.len(), 0);
}

#[test]
fn reload_puts_captures_in_index_order() {
    let captures = vec![
        AssetCapture { value: Amount::new(30, 0), idx: 2 },
        AssetCapture { value: Amount::new(10, 0), idx: 0 },
        AssetCapture { value: Amount::new(40, 0), idx: 3 },
        AssetCapture { value: Amount::new(20, 0), idx: 1 },
    ];
    let pool = AssetPool::reload(captures);
    assert_eq!(
        values_in(&pool),
        vec![
            Some(Amount::new(10, 0)),
            Some(Amount::new(20, 0)),
            Some(Amount::new(30, 0)),
            Some(Amount::new(40, 0))
        ]
    );
}

#[test]
fn reload_unchecked_keeps_arrival_order() {
    let captures = vec![
        AssetCapture { value: Amount::new(30, 0), idx: 2 },
        AssetCapture { value: Amount::new(10, 0), idx: 0 },
        AssetCapture { value: Amount::new(20, 0), idx: 1 },
    ];
    let pool = AssetPool::reload_unchecked(captures);
    assert_eq!(
        values_in(&pool),
        vec![Some(Amount::new(30, 0)), Some(Amount::new(10, 0)), Some(Amount::new(20, 0))]
    );
}

#[test]
fn reload_unchecked_of_ordered_captures_restores_the_pool() {
    let values = [Amount::new(1, 1), Amount::new(2, 2), Amount::new(3, 3)];
    let back = AssetPool::reload_unchecked(pool_of(&values).capture());
    assert_eq!(values_in(&back), vec![Some(values[0]), Some(values[1]), Some(values[2])]);
}

#[test]
fn reload_orders_captures_of_one_index_by_value() {
    let captures = vec![
        AssetCapture { value: Amount::new(7, 1), idx: 0 },
        AssetCapture { value: Amount::new(7, 0), idx: 0 },
        AssetCapture { value: Amount::new(-3, 0), idx: 0 },
    ];
    let pool = AssetPool::reload(captures);
    assert_eq!(
        values_in(&pool),
        vec![Some(Amount::new(-3, 0)), Some(Amount::new(7, 0)), Some(Amount::new(7, 1))]
    );
}

#[test]
fn group_of_two_is_their_sum() {
    let pool = pool_of(&[Amount::new(125, 2), Amount::new(9, 0), Amount::new(375, 2)]);
    assert_eq!(pool.value_of_group(vec![0, 2]), Some(Amount::new(500, 2)));
    assert_eq!(pool.value_of_group(vec![2, 0]), Some(Amount::new(500, 2)));
    assert_eq!(pool.value_of_group(vec![1, 1]), Some(Amount::new(18, 0)));
}

#[test]
fn empty_group_is_worth_zero() {
    let pool = pool_of(&[Amount::new(125, 2)]);
    assert_eq!(pool.value_of_group(vec![]), Some(Amount::zero()));
    assert_eq!(pool.value_of_group_unchecked(vec![]), Some(Amount::zero()));
}

#[test]
fn missing_asset_adds_nothing_to_a_group() {
    let pool = pool_of(&[Amount::new(125, 2), Amount::new(375, 2)]);
    assert_eq!(pool.value_of_group(vec![0, 7, 1]), Some(Amount::new(500, 2)));
    assert_eq!(pool.value_of_group(vec![7, 0, 1, 2]), Some(Amount::new(500, 2)));
    assert_eq!(pool.value_of_group(vec![2]), Some(Amount::zero()));
    assert_eq!(pool.value_of_group(vec![0, usize::MAX]), Some(Amount::new(125, 2)));
}

#[test]
fn group_of_an_unloaded_pool_is_worth_zero() {
    let mut pool = pool_of(&[Amount::new(125, 2), Amount::new(375, 2)]);
    pool.unload();
    assert_eq!(pool.value_of_group(vec![0, 1]), Some(Amount::zero()));
}

#[test]
fn group_out_of_range_is_none() {
    let max = Amount::try_new(MAX_MANTISSA, 0).unwrap();
    let pool = pool_of(&[max, Amount::new(1, 0), Amount::new(-1, 0)]);
    assert_eq!(pool.value_of_group(vec![0, 1]), None);
    assert_eq!(pool.value_of_group(vec![0, 1, 2]), None);
    assert_eq!(pool.value_of_group(vec![0, 2, 1]), Some(max));
    assert_eq!(pool.value_of_group_unchecked(vec![0, 0]), None);
}

#[test]
fn unchecked_group_agrees_with_checked() {
    let pool = pool_of(&[Amount::new(42, 3), Amount::new(900, 0), Amount::new(500, 1)]);
    let idxs = vec![2, 0, 1, 0];
    assert_eq!(pool.value_of_group_unchecked(idxs.clone()), pool.value_of_group(idxs));
    assert_eq!(pool.value_of_group_unchecked(vec![0, 1, 2]), Some(Amount::new(950042, 3)));
}
