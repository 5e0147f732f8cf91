use pallet_orderbook::pallet::{Error, Event, Pallet};
use pallet_orderbook::types::{AssetId, ChainId, ForeignAccount, PriceValue};

fn asset(n: u128) -> AssetId {
    AssetId { high: 0, low: n }
}

#[test]
fn scenario_register_order_and_remove() {
    let mut p = Pallet::new();
    let a: u64 = 7;
    let chain = ChainId(1);
    let fa = ForeignAccount { high: 0, low: 1 };
    assert_eq!(p.set_foreign_account(Some(a), chain, fa), Ok(()));
    assert_eq!(p.account_chain_id_account(a, chain), fa);
    let x = asset(10);
    let y = asset(20);
    assert_eq!(p.set_order(Some(a), x, y, 100, 5), Ok(()));
    assert_eq!(p.account_pair_order(a, x, y), PriceValue { price: 100, value: 5 });
    assert_eq!(p.remove_order(Some(a), x, y), Ok(()));
    assert_eq!(p.account_pair_order(a, x, y), PriceValue { price: 0, value: 0 });
}

#[test]
fn unset_foreign_account_reads_zero() {
    let p = Pallet::new();
    assert_eq!(p.account_chain_id_account(1, ChainId(3)), ForeignAccount { high: 0, low: 0 });
}

#[test]
fn last_write_wins_with_one_event() {
    let mut p = Pallet::new();
    let f1 = ForeignAccount { high: 1, low: 2 };
    let f2 = ForeignAccount { high: 3, low: 4 };
    p.set_foreign_account(Some(9), ChainId(5), f1).unwrap();
    let before = p.events.len();
    p.set_foreign_account(Some(9), ChainId(5), f2).unwrap();
    assert_eq!(p.account_chain_id_account(9, ChainId(5)), f2);
    assert_eq!(p.events.len(), before + 1);
    assert_eq!(p.events[before], Event::SetForeignAccount(9, ChainId(5), f2));
}

#[test]
fn set_order_event_omits_account() {
    let mut p = Pallet::new();
    p.set_order(Some(4), asset(1), asset(2), 3, 8).unwrap();
    assert_eq!(p.events, vec![Event::SetOrder(asset(1), asset(2), 3, 8)]);
}

#[test]
fn remove_absent_order_is_no_op() {
    let mut p = Pallet::new();
    assert_eq!(p.remove_order(Some(1), asset(1), asset(2)), Ok(()));
    assert_eq!(p.remove_orders(Some(1), u32::MAX), Ok(0));
    assert_eq!(p.remove_orders_for_sell_asset(Some(1), asset(1), u32::MAX), Ok(0));
}

#[test]
fn remove_orders_for_sell_asset_keeps_others() {
    let mut p = Pallet::new();
    p.set_order(Some(1), asset(1), asset(2), 10, 1).unwrap();
    p.set_order(Some(1), asset(1), asset(3), 11, 1).unwrap();
    p.set_order(Some(1), asset(4), asset(2), 12, 1).unwrap();
    p.set_order(Some(2), asset(1), asset(2), 13, 1).unwrap();
    assert_eq!(p.remove_orders_for_sell_asset(Some(1), asset(1), u32::MAX), Ok(2));
    assert_eq!(p.account_pair_order(1, asset(1), asset(2)), PriceValue { price: 0, value: 0 });
    assert_eq!(p.account_pair_order(1, asset(1), asset(3)), PriceValue { price: 0, value: 0 });
    assert_eq!(p.account_pair_order(1, asset(4), asset(2)), PriceValue { price: 12, value: 1 });
    assert_eq!(p.account_pair_order(2, asset(1), asset(2)), PriceValue { price: 13, value: 1 });
}

#[test]
fn remove_orders_keeps_other_accounts() {
    let mut p = Pallet::new();
    p.set_order(Some(1), asset(1), asset(2), 10, 1).unwrap();
    p.set_order(Some(1), asset(4), asset(2), 12, 1).unwrap();
    p.set_order(Some(2), asset(1), asset(2), 13, 1).unwrap();
    assert_eq!(p.remove_orders(Some(1), u32::MAX), Ok(2));
    assert_eq!(p.account_pair_order(1, asset(1), asset(2)), PriceValue { price: 0, value: 0 });
    assert_eq!(p.account_pair_order(1, asset(4), asset(2)), PriceValue { price: 0, value: 0 });
    assert_eq!(p.account_pair_order(2, asset(1), asset(2)), PriceValue { price: 13, value: 1 });
}

#[test]
fn bulk_removal_respects_limit() {
    let mut p = Pallet::new();
    for b in 0..5u128 {
        p.set_order(Some(1), asset(1), asset(b), 1, 1).unwrap();
    }
    assert_eq!(p.remove_orders(Some(1), 2), Ok(2));
    assert_eq!(p.orderbook.entries.len(), 3);
    assert_eq!(p.remove_orders(Some(1), 2), Ok(2));
    assert_eq!(p.remove_orders(Some(1), 2), Ok(1));
    assert_eq!(p.orderbook.entries.len(), 0);
}

#[test]
fn unsigned_calls_change_nothing() {
    let mut p = Pallet::new();
    p.set_order(Some(1), asset(1), asset(2), 10, 1).unwrap();
    p.set_foreign_account(Some(1), ChainId(1), ForeignAccount { high: 0, low: 1 }).unwrap();
    let events = p.events.clone();
    assert_eq!(p.set_foreign_account(None, ChainId(1), ForeignAccount { high: 5, low: 5 }), Err(Error::BadOrigin));
    assert_eq!(p.set_order(None, asset(1), asset(2), 99, 99), Err(Error::BadOrigin));
    assert_eq!(p.remove_order(None, asset(1), asset(2)), Err(Error::BadOrigin));
    assert_eq!(p.remove_orders_for_sell_asset(None, asset(1), u32::MAX), Err(Error::BadOrigin));
    assert_eq!(p.remove_orders(None, u32::MAX), Err(Error::BadOrigin));
    assert_eq!(p.events, events);
    assert_eq!(p.account_pair_order(1, asset(1), asset(2)), PriceValue { price: 10, value: 1 });
    assert_eq!(p.account_chain_id_account(1, ChainId(1)), ForeignAccount { high: 0, low: 1 });
}

#[test]
fn bulk_removal_with_limit_equal_to_count_clears_prefix() {
    let mut p = Pallet::new();
    p.set_order(Some(3), asset(1), asset(2), 1, 1).unwrap();
    p.set_order(Some(3), asset(1), asset(5), 2, 1).unwrap();
    p.set_order(Some(3), asset(6), asset(5), 4, 1).unwrap();
    assert_eq!(p.remove_orders_for_sell_asset(Some(3), asset(1), 2), Ok(2));
    assert_eq!(p.account_pair_order(3, asset(1), asset(2)), PriceValue { price: 0, value: 0 });
    assert_eq!(p.account_pair_order(3, asset(1), asset(5)), PriceValue { price: 0, value: 0 });
    assert_eq!(p.account_pair_order(3, asset(6), asset(5)), PriceValue { price: 4, value: 1 });
    assert_eq!(p.remove_orders_for_sell_asset(Some(3), asset(6), 0), Ok(0));
    assert_eq!(p.account_pair_order(3, asset(6), asset(5)), PriceValue { price: 4, value: 1 });
}
