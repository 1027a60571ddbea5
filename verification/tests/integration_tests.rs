use donation_matcher_contract::generic::{near_string_to_yocto, yocto_to_near_string};
use donation_matcher_contract::{AccountId, Amount, Contract, Transfer};
use std::collections::{BTreeMap, HashMap};

fn id(name: &str) -> AccountId {
    AccountId::new(name.to_string())
}

fn near(text: &str) -> Amount {
    near_string_to_yocto(text.to_string()).unwrap()
}

/// The balances of the accounts and of the escrow, moved as the host would
/// move them.
struct Bank {
    balances: HashMap<String, Amount>,
    escrow: Amount,
}

impl Bank {
    fn new(accounts: &[&str], starting_balance: Amount) -> Bank {
        Bank {
            balances: accounts
                .iter()
                .map(|name| (name.to_string(), starting_balance))
                .collect(),
            escrow: 0,
        }
    }

    fn balance(&self, account: &str) -> Amount {
        self.balances[account]
    }

    fn deposit(&mut self, from: &str, amount: Amount) {
        *self.balances.get_mut(from).unwrap() -= amount;
        self.escrow += amount;
    }

    fn perform(&mut self, transfer: &Transfer) {
        self.escrow -= transfer.amount;
        *self
            .balances
            .get_mut(transfer.destination.as_str())
            .unwrap() += transfer.amount;
    }
}

#[test]
fn test_offer_matching_funds_and_get_commitments_and_rescind_matching_funds_and_donate() {
    let mut contract = Contract::new();
    let starting_balance_for_each_acct = "1 Ⓝ".to_string();
    let matcher1_offer = "0.3 Ⓝ".to_string();
    let matcher2_offer = "0.1 Ⓝ".to_string();
    let matcher1_rescind = "0.02 Ⓝ".to_string();
    let donation = "0.1 Ⓝ".to_string();
    let mut bank = Bank::new(
        &["recipient", "matcher1", "matcher2", "donor"],
        near(&starting_balance_for_each_acct),
    );
    let recipient = id("recipient");

    assert_eq!(
        yocto_to_near_string(bank.balance("recipient")),
        starting_balance_for_each_acct
    );

    bank.deposit("matcher1", near(&matcher1_offer));
    contract
        .offer_matching_funds(&recipient, &id("matcher1"), near(&matcher1_offer))
        .unwrap();
    assert_eq!(
        yocto_to_near_string(bank.balance("recipient")),
        starting_balance_for_each_acct
    );
    let matcher1_bal_after_offer = near(&starting_balance_for_each_acct) - near(&matcher1_offer);
    assert_eq!(bank.balance("matcher1"), matcher1_bal_after_offer);

    bank.deposit("matcher2", near(&matcher2_offer));
    contract
        .offer_matching_funds(&recipient, &id("matcher2"), near(&matcher2_offer))
        .unwrap();
    assert_eq!(
        yocto_to_near_string(bank.balance("recipient")),
        starting_balance_for_each_acct
    );
    let matcher2_bal_after_offer = near(&starting_balance_for_each_acct) - near(&matcher2_offer);
    assert_eq!(bank.balance("matcher2"), matcher2_bal_after_offer);
    assert_eq!(
        contract.get_commitments(recipient.clone()),
        format!(
            "{{\"matcher1\":\"{}\",\"matcher2\":\"{}\"}}",
            matcher1_offer, matcher2_offer
        )
    );

    let rescission = contract
        .rescind_matching_funds(&recipient, &id("matcher1"), matcher1_rescind.clone())
        .unwrap();
    bank.perform(&rescission.transfer);
    contract.on_rescind_matching_funds(
        &rescission.pending.recipient,
        rescission.pending.matcher,
        rescission.pending.original_amount,
        true,
    );
    let matcher1_bal_after_rescind = matcher1_bal_after_offer + near(&matcher1_rescind);
    assert_eq!(bank.balance("matcher1"), matcher1_bal_after_rescind);
    let matcher1_offer_after_rescind = near(&matcher1_offer) - near(&matcher1_rescind);
    assert_eq!(
        contract.get_commitments(recipient.clone()),
        format!(
            "{{\"matcher1\":\"{}\",\"matcher2\":\"{}\"}}",
            yocto_to_near_string(matcher1_offer_after_rescind),
            matcher2_offer
        )
    );

    bank.deposit("donor", near(&donation));
    let donated = contract.donate(recipient.clone(), near(&donation)).unwrap();
    bank.perform(&donated.transfer);
    contract.on_donate(
        &recipient,
        &donated.donation_amount,
        &donated.original_commitments,
        true,
    );
    let recipient_donor_bal = near(&starting_balance_for_each_acct) - near(&donation);
    assert_eq!(bank.balance("donor"), recipient_donor_bal);
    let recipient_expected_bal = near(&starting_balance_for_each_acct) + (3 * near(&donation));
    assert_eq!(bank.balance("recipient"), recipient_expected_bal);
    assert_eq!(bank.balance("matcher1"), matcher1_bal_after_rescind);
    assert_eq!(bank.balance("matcher2"), matcher2_bal_after_offer);
    let matcher1_offer_after_donation = matcher1_offer_after_rescind - near(&donation);
    assert_eq!(
        contract.get_commitments(recipient.clone()),
        format!(
            "{{\"matcher1\":\"{}\"}}",
            yocto_to_near_string(matcher1_offer_after_donation)
        )
    );
    assert_eq!(bank.escrow, matcher1_offer_after_donation);
}

/// A source of numbers that looks random and is the same in every run.
struct Numbers(u64);

impl Numbers {
    fn next(&mut self, below: u64) -> u64 {
        self.0 = self
            .0
            .wrapping_mul(6364136223846793005)
            .wrapping_add(1442695040888963407);
        (self.0 >> 33) % below
    }
}

fn listed(contract: &Contract, recipient: &str) -> BTreeMap<String, Amount> {
    match contract.get_expected_matchers_for_this_recipient(&id(recipient)) {
        Ok(pledges) => {
            assert!(pledges.len() > 0);
            (0..pledges.len())
                .map(|i| (pledges.matcher_at(i).as_str().to_string(), pledges.amount_at(i)))
                .collect()
        }
        Err(_) => BTreeMap::new(),
    }
}

fn rendered(pledges: &BTreeMap<String, Amount>) -> String {
    let members: Vec<String> = pledges
        .iter()
        .map(|(matcher, amount)| format!("\"{}\":\"{}\"", matcher, yocto_to_near_string(*amount)))
        .collect();
    format!("{{{}}}", members.join(","))
}

#[test]
fn the_ledger_agrees_with_a_plain_map_through_many_operations() {
    let names = ["ann", "an", "bob", "bo", "cy", "dee", "d"];
    let unit = near("0.01");
    let mut numbers = Numbers(7);
    let mut contract = Contract::new();
    let mut model: BTreeMap<String, BTreeMap<String, Amount>> = BTreeMap::new();
    let mut escrow: Amount = 0;
    for _ in 0..2000 {
        let recipient = names[numbers.next(3) as usize];
        let matcher = names[numbers.next(names.len() as u64) as usize];
        let amount = unit * (1 + numbers.next(40) as u128);
        let failed = numbers.next(3) == 0;
        let before = model.clone();
        match numbers.next(4) {
            0 => {
                contract
                    .offer_matching_funds(&id(recipient), &id(matcher), amount)
                    .unwrap();
                *model
                    .entry(recipient.to_string())
                    .or_default()
                    .entry(matcher.to_string())
                    .or_default() += amount;
                escrow += amount;
            }
            1 => {
                let held = model
                    .get(recipient)
                    .and_then(|pledges| pledges.get(matcher))
                    .copied();
                let done = contract.rescind_matching_funds(
                    &id(recipient),
                    &id(matcher),
                    yocto_to_near_string(amount),
                );
                match held {
                    None => assert!(done.is_err()),
                    Some(held) => {
                        let rescission = done.unwrap();
                        assert_eq!(rescission.transfer.amount, amount.min(held));
                        assert_eq!(rescission.pending.original_amount, held);
                        if held > amount {
                            model.get_mut(recipient).unwrap().insert(matcher.to_string(), held - amount);
                        } else {
                            model.get_mut(recipient).unwrap().remove(matcher);
                        }
                        assert_eq!(listed(&contract, recipient), model[recipient]);
                        contract.on_rescind_matching_funds(
                            &rescission.pending.recipient,
                            rescission.pending.matcher,
                            rescission.pending.original_amount,
                            !failed,
                        );
                        if failed {
                            model = before;
                        } else {
                            escrow -= rescission.transfer.amount;
                        }
                    }
                }
            }
            2 => {
                let donation = contract.donate(id(recipient), amount).unwrap();
                let pledges = model.entry(recipient.to_string()).or_default();
                let mut total = amount;
                for held in pledges.values_mut() {
                    let matched = amount.min(*held);
                    total += matched;
                    *held -= matched;
                }
                pledges.retain(|_, held| *held > 0);
                assert_eq!(donation.transfer.amount, total);
                assert!(total - amount <= amount * donation.original_commitments.len() as u128);
                assert_eq!(listed(&contract, recipient), model[recipient]);
                contract.on_donate(
                    &id(recipient),
                    &donation.donation_amount,
                    &donation.original_commitments,
                    !failed,
                );
                if failed {
                    model = before;
                } else {
                    escrow -= total - amount;
                }
            }
            _ => {
                if numbers.next(10) == 0 {
                    let removed =
                        contract.delete_all_matches_associated_with_recipient(id(recipient));
                    let gone = model.remove(recipient).unwrap_or_default();
                    assert_eq!(removed.len(), gone.len());
                    for (matcher, amount) in gone {
                        assert_eq!(removed.get(&id(&matcher)), Some(amount));
                        escrow -= amount;
                    }
                }
            }
        }
        model.retain(|_, pledges| !pledges.is_empty());
        let mut committed: Amount = 0;
        for recipient in names {
            let expected = model.get(recipient).cloned().unwrap_or_default();
            assert_eq!(listed(&contract, recipient), expected);
            assert_eq!(contract.get_commitments(id(recipient)), rendered(&expected));
            for held in expected.values() {
                assert!(*held > 0);
                committed += held;
            }
        }
        assert_eq!(committed, escrow);
    }
}
