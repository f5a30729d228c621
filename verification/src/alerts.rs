//! Price alerts and the rule by which they fire.

use crate::binary64::Binary64;
use vstd::prelude::*;

verus! {

/// The side of the target price on which an alert fires.
#[derive(Debug, Clone, Copy, PartialEq, Eq, Structural)]
pub enum AlertCondition {
    Above,
    Below,
}

impl AlertCondition {
    /// The condition of an alert set at `target` while the price is
    /// `current`: `Above` when the target exceeds the current price, `Below`
    /// otherwise.
    pub open spec fn facing(target: Binary64, current: Binary64) -> AlertCondition {
        if target.exceeds(current) {
            AlertCondition::Above
        } else {
            AlertCondition::Below
        }
    }

    /// Whether `price` meets the condition at `target`: at or above it for
    /// `Above`, at or below it for `Below`.
    pub open spec fn met(self, price: Binary64, target: Binary64) -> bool {
        match self {
            AlertCondition::Above => price.at_least(target),
            AlertCondition::Below => price.at_most(target),
        }
    }

    /// The condition of an alert set at `target` while the price is
    /// `current`.
    pub fn toward(target: Binary64, current: Binary64) -> (condition: AlertCondition)
        ensures
            condition == AlertCondition::facing(target, current),
    {
        if target.gt(&current) {
            AlertCondition::Above
        } else {
            AlertCondition::Below
        }
    }
}

/// A standing request to be told when a ticker's price crosses a target.
#[derive(Debug, PartialEq, Eq)]
pub struct Alert {
    /// Who asked.
    pub user_id: u64,
    /// Where the notification goes.
    pub channel_id: u64,
    pub ticker: String,
    pub target_price: Binary64,
    pub condition: AlertCondition,
}

impl Clone for Alert {
    fn clone(&self) -> (copy: Alert)
        ensures
            copy == *self,
    {
        Alert {
            user_id: self.user_id,
            channel_id: self.channel_id,
            ticker: self.ticker.clone(),
            target_price: self.target_price,
            condition: self.condition,
        }
    }
}

impl Alert {
    /// Whether the alert fires at `price`.
    pub open spec fn fires_at(self, price: Binary64) -> bool {
        self.condition.met(price, self.target_price)
    }

    /// Whether the alert fires at `price`.
    pub fn is_triggered(&self, price: Binary64) -> (fires: bool)
        ensures
            fires == self.fires_at(price),
    {
        match self.condition {
            AlertCondition::Above => price.ge(&self.target_price),
            AlertCondition::Below => price.le(&self.target_price),
        }
    }
}

} // verus!
