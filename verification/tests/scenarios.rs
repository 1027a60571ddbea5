use donation_matcher_contract::account::{compare_names, Precedence};
use donation_matcher_contract::generic::YOCTO_FACTOR;
use donation_matcher_contract::{
    AccountId, Amount, Contract, LedgerError, MatcherAmountMap, ValidationError, STORAGE_COST,
};

fn id(name: &str) -> AccountId {
    AccountId::new(name.to_string())
}

/// An amount given in hundredths of a NEAR.
fn cents(n: u128) -> Amount {
    n * YOCTO_FACTOR / 100
}

/// Bob has offered 0.3 to Alice and Charlie 0.1.
fn two_matchers() -> Contract {
    let mut contract = Contract::new();
    contract
        .offer_matching_funds(&id("alice"), &id("bob"), cents(30))
        .unwrap();
    contract
        .offer_matching_funds(&id("alice"), &id("charlie"), cents(10))
        .unwrap();
    contract
}

fn pairs(pledges: &MatcherAmountMap) -> Vec<(String, Amount)> {
    (0..pledges.len())
        .map(|i| (pledges.matcher_at(i).as_str().to_string(), pledges.amount_at(i)))
        .collect()
}

fn commitments(contract: &Contract, recipient: &str) -> Vec<(String, Amount)> {
    match contract.get_expected_matchers_for_this_recipient(&id(recipient)) {
        Ok(pledges) => pairs(pledges),
        Err(_) => Vec::new(),
    }
}

#[test]
fn two_offers_are_listed() {
    let contract = two_matchers();
    assert_eq!(
        commitments(&contract, "alice"),
        vec![("bob".to_string(), cents(30)), ("charlie".to_string(), cents(10))]
    );
    assert_eq!(
        contract.get_commitments(id("alice")),
        "{\"bob\":\"0.3 Ⓝ\",\"charlie\":\"0.1 Ⓝ\"}"
    );
}

#[test]
fn an_offer_is_acknowledged() {
    let mut contract = Contract::new();
    let message = contract.offer_matching_funds(&id("alice"), &id("bob"), cents(30));
    assert_eq!(
        message,
        Ok("bob is now committed to match donations to alice up to a maximum of 0.3 Ⓝ."
            .to_string())
    );
    let again = contract.offer_matching_funds(&id("alice"), &id("bob"), cents(5));
    assert_eq!(
        again,
        Ok("bob is now committed to match donations to alice up to a maximum of 0.05 Ⓝ."
            .to_string())
    );
    assert_eq!(contract.get_expected_commitment(&id("alice"), &id("bob")), Ok(cents(35)));
}

#[test]
fn a_rescission_lowers_the_commitment() {
    let mut contract = two_matchers();
    let rescission = contract
        .rescind_matching_funds(&id("alice"), &id("bob"), "0.02".to_string())
        .unwrap();
    assert_eq!(
        rescission.message,
        "bob is about to rescind 0.02 Ⓝ and then will only be committed to match donations to alice up to a maximum of 0.28 Ⓝ."
    );
    assert_eq!(rescission.transfer.destination, id("bob"));
    assert_eq!(rescission.transfer.amount, cents(2));
    assert_eq!(rescission.pending.recipient, id("alice"));
    assert_eq!(rescission.pending.matcher, id("bob"));
    assert_eq!(rescission.pending.amount_transferred, cents(2));
    assert_eq!(rescission.pending.original_amount, cents(30));
    assert_eq!(
        commitments(&contract, "alice"),
        vec![("bob".to_string(), cents(28)), ("charlie".to_string(), cents(10))]
    );
}

#[test]
fn a_donation_is_matched_by_every_matcher() {
    let mut contract = two_matchers();
    contract
        .rescind_matching_funds(&id("alice"), &id("bob"), "0.02".to_string())
        .unwrap();
    let donation = contract.donate(id("alice"), cents(10)).unwrap();
    assert_eq!(donation.transfer.destination, id("alice"));
    assert_eq!(donation.transfer.amount, cents(30));
    assert_eq!(donation.donation_amount, cents(10));
    assert_eq!(
        pairs(&donation.original_commitments),
        vec![("bob".to_string(), cents(28)), ("charlie".to_string(), cents(10))]
    );
    assert_eq!(commitments(&contract, "alice"), vec![("bob".to_string(), cents(18))]);
    assert_eq!(contract.get_commitments(id("alice")), "{\"bob\":\"0.18 Ⓝ\"}");
    assert_eq!(
        contract.get_expected_commitment(&id("alice"), &id("charlie")),
        Err(LedgerError::NoSuchMatcher)
    );
}

#[test]
fn offers_add_up() {
    let mut contract = Contract::new();
    contract
        .offer_matching_funds(&id("alice"), &id("bob"), cents(10))
        .unwrap();
    contract
        .offer_matching_funds(&id("alice"), &id("bob"), cents(10))
        .unwrap();
    assert_eq!(commitments(&contract, "alice"), vec![("bob".to_string(), cents(20))]);
}

#[test]
fn a_rescission_is_clamped_to_the_commitment() {
    let mut contract = Contract::new();
    contract
        .offer_matching_funds(&id("alice"), &id("bob"), cents(10))
        .unwrap();
    let rescission = contract
        .rescind_matching_funds(&id("alice"), &id("bob"), "99".to_string())
        .unwrap();
    assert_eq!(rescission.transfer.amount, cents(10));
    assert_eq!(rescission.pending.amount_transferred, cents(10));
    assert_eq!(rescission.pending.original_amount, cents(10));
    assert_eq!(
        rescission.message,
        "bob is about to rescind 0.1 Ⓝ and then will no longer be matching donations to alice."
    );
    assert_eq!(commitments(&contract, "alice"), Vec::new());
    assert_eq!(contract.get_commitments(id("alice")), "{}");
    assert_eq!(
        contract.get_expected_commitment(&id("alice"), &id("bob")),
        Err(LedgerError::NoSuchRecipient)
    );
}

#[test]
fn a_failed_rescission_is_taken_back() {
    let mut contract = Contract::new();
    contract
        .offer_matching_funds(&id("alice"), &id("bob"), cents(10))
        .unwrap();
    let before = contract.get_commitments(id("alice"));
    let pending = contract
        .rescind_matching_funds(&id("alice"), &id("bob"), "99".to_string())
        .unwrap()
        .pending;
    contract.on_rescind_matching_funds(
        &pending.recipient,
        pending.matcher,
        pending.original_amount,
        false,
    );
    assert_eq!(commitments(&contract, "alice"), vec![("bob".to_string(), cents(10))]);
    assert_eq!(contract.get_commitments(id("alice")), before);
}

#[test]
fn a_confirmed_rescission_stays() {
    let mut contract = two_matchers();
    let pending = contract
        .rescind_matching_funds(&id("alice"), &id("bob"), "0.02".to_string())
        .unwrap()
        .pending;
    contract.on_rescind_matching_funds(
        &pending.recipient,
        pending.matcher,
        pending.original_amount,
        true,
    );
    assert_eq!(
        commitments(&contract, "alice"),
        vec![("bob".to_string(), cents(28)), ("charlie".to_string(), cents(10))]
    );
}

#[test]
fn a_failed_partial_rescission_is_taken_back() {
    let mut contract = two_matchers();
    let before = commitments(&contract, "alice");
    let pending = contract
        .rescind_matching_funds(&id("alice"), &id("bob"), "0.02".to_string())
        .unwrap()
        .pending;
    contract.on_rescind_matching_funds(
        &pending.recipient,
        pending.matcher,
        pending.original_amount,
        false,
    );
    assert_eq!(commitments(&contract, "alice"), before);
}

#[test]
fn a_failed_donation_is_taken_back_for_every_matcher() {
    let mut contract = two_matchers();
    contract
        .offer_matching_funds(&id("zoe"), &id("bob"), cents(7))
        .unwrap();
    let before = commitments(&contract, "alice");
    let text_before = contract.get_commitments(id("alice"));
    let donation = contract.donate(id("alice"), cents(20)).unwrap();
    assert_eq!(donation.transfer.amount, cents(20 + 20 + 10));
    assert_eq!(commitments(&contract, "alice"), vec![("bob".to_string(), cents(10))]);
    contract.on_donate(
        &id("alice"),
        &donation.donation_amount,
        &donation.original_commitments,
        false,
    );
    assert_eq!(commitments(&contract, "alice"), before);
    assert_eq!(contract.get_commitments(id("alice")), text_before);
    assert_eq!(commitments(&contract, "zoe"), vec![("bob".to_string(), cents(7))]);
}

#[test]
fn a_failed_donation_that_used_up_every_pledge_is_taken_back() {
    let mut contract = two_matchers();
    let before = commitments(&contract, "alice");
    let donation = contract.donate(id("alice"), cents(100)).unwrap();
    assert_eq!(donation.transfer.amount, cents(100 + 30 + 10));
    assert_eq!(commitments(&contract, "alice"), Vec::new());
    assert_eq!(
        contract
            .get_expected_matchers_for_this_recipient(&id("alice"))
            .err(),
        Some(LedgerError::NoSuchRecipient)
    );
    contract.on_donate(
        &id("alice"),
        &donation.donation_amount,
        &donation.original_commitments,
        false,
    );
    assert_eq!(commitments(&contract, "alice"), before);
}

#[test]
fn a_confirmed_donation_stays() {
    let mut contract = two_matchers();
    let donation = contract.donate(id("alice"), cents(20)).unwrap();
    contract.on_donate(
        &id("alice"),
        &donation.donation_amount,
        &donation.original_commitments,
        true,
    );
    assert_eq!(commitments(&contract, "alice"), vec![("bob".to_string(), cents(10))]);
}

#[test]
fn taking_a_donation_back_keeps_what_others_offered_meanwhile() {
    let mut contract = two_matchers();
    let donation = contract.donate(id("alice"), cents(20)).unwrap();
    contract
        .offer_matching_funds(&id("alice"), &id("danny"), cents(4))
        .unwrap();
    contract.on_donate(
        &id("alice"),
        &donation.donation_amount,
        &donation.original_commitments,
        false,
    );
    assert_eq!(
        commitments(&contract, "alice"),
        vec![
            ("bob".to_string(), cents(30)),
            ("charlie".to_string(), cents(10)),
            ("danny".to_string(), cents(4))
        ]
    );
}

#[test]
fn a_donation_without_matchers_goes_on_alone() {
    let mut contract = two_matchers();
    let donation = contract.donate(id("zoe"), cents(20)).unwrap();
    assert_eq!(donation.transfer.destination, id("zoe"));
    assert_eq!(donation.transfer.amount, cents(20));
    assert_eq!(donation.original_commitments.len(), 0);
    assert!(donation.original_commitments.is_empty());
    assert_eq!(
        commitments(&contract, "alice"),
        vec![("bob".to_string(), cents(30)), ("charlie".to_string(), cents(10))]
    );
    assert_eq!(commitments(&contract, "zoe"), Vec::new());
}

#[test]
fn matched_amounts_stay_within_their_bounds() {
    let mut contract = two_matchers();
    contract
        .offer_matching_funds(&id("alice"), &id("danny"), cents(50))
        .unwrap();
    let donation_amount = cents(20);
    let (total, originals) = contract
        .record_matching_donations_as_sent(&donation_amount, &id("alice"))
        .unwrap();
    let matched = total - donation_amount;
    assert_eq!(matched, cents(20 + 10 + 20));
    assert!(matched <= donation_amount * originals.len() as u128);
    for i in 0..originals.len() {
        let before = originals.amount_at(i);
        let after = contract
            .get_expected_commitment(&id("alice"), originals.matcher_at(i))
            .unwrap_or(0);
        assert!(before - after <= before);
        assert!(before - after <= donation_amount);
        assert_eq!(before - after, before.min(donation_amount));
    }
}

#[test]
fn no_commitment_of_zero_is_stored() {
    let mut contract = two_matchers();
    contract.donate(id("alice"), cents(10)).unwrap();
    for (_, amount) in commitments(&contract, "alice") {
        assert!(amount > 0);
    }
    contract.set_matcher_amount(&id("alice"), &id("bob"), 0);
    assert_eq!(commitments(&contract, "alice"), Vec::new());
    assert_eq!(
        contract.get_expected_commitment(&id("alice"), &id("bob")),
        Err(LedgerError::NoSuchRecipient)
    );
    contract.set_matcher_amount(&id("alice"), &id("bob"), 0);
    assert_eq!(contract.get_commitments(id("alice")), "{}");
}

#[test]
fn a_repeated_query_gives_the_same_answer() {
    let contract = two_matchers();
    let first = contract.get_commitments(id("alice"));
    let second = contract.get_commitments(id("alice"));
    assert_eq!(first, second);
    assert_eq!(contract.get_commitments(id("zoe")), contract.get_commitments(id("zoe")));
}

#[test]
fn commitments_are_listed_by_name_whatever_the_order_of_the_offers() {
    let mut contract = Contract::new();
    for matcher in ["charlie", "bob", "danny", "bo", "bobby"] {
        contract
            .offer_matching_funds(&id("alice"), &id(matcher), cents(10))
            .unwrap();
    }
    assert_eq!(
        contract.get_commitments(id("alice")),
        "{\"bo\":\"0.1 Ⓝ\",\"bob\":\"0.1 Ⓝ\",\"bobby\":\"0.1 Ⓝ\",\"charlie\":\"0.1 Ⓝ\",\"danny\":\"0.1 Ⓝ\"}"
    );
}

#[test]
fn names_compare_as_texts_do() {
    let names = ["", "a", "ab", "abc", "b", "bob", "bobby", "charlie", "z", "é", "Ⓝ"];
    for a in names {
        for b in names {
            let expected = if a < b {
                Precedence::Before
            } else if a == b {
                Precedence::Same
            } else {
                Precedence::After
            };
            assert_eq!(compare_names(a, b), expected);
            assert_eq!(id(a).compare(&id(b)), expected);
        }
    }
}

#[test]
fn an_offer_has_to_reach_the_storage_cost() {
    let mut contract = Contract::new();
    let too_small = Err(LedgerError::Validation(ValidationError::OfferTooSmall));
    assert_eq!(contract.offer_matching_funds(&id("alice"), &id("bob"), 0), too_small);
    assert_eq!(
        contract.offer_matching_funds(&id("alice"), &id("bob"), STORAGE_COST - 1),
        too_small
    );
    assert_eq!(contract.get_commitments(id("alice")), "{}");
    assert_eq!(
        contract.get_expected_commitment(&id("alice"), &id("bob")),
        Err(LedgerError::NoSuchRecipient)
    );
    assert_eq!(
        contract.offer_matching_funds(&id("alice"), &id("bob"), STORAGE_COST),
        Ok("bob is now committed to match donations to alice up to a maximum of 0.001 Ⓝ."
            .to_string())
    );
    assert_eq!(
        contract.get_expected_commitment(&id("alice"), &id("bob")),
        Ok(STORAGE_COST)
    );
    assert_eq!(commitments(&contract, "alice"), vec![("bob".to_string(), STORAGE_COST)]);
    assert!(contract
        .offer_matching_funds(&id("alice"), &id("bob"), STORAGE_COST + 1)
        .is_ok());
    assert_eq!(
        contract.get_expected_commitment(&id("alice"), &id("bob")),
        Ok(2 * STORAGE_COST + 1)
    );
}

#[test]
fn an_offer_beyond_what_can_be_counted_is_refused() {
    let mut contract = Contract::new();
    contract
        .offer_matching_funds(&id("alice"), &id("bob"), u128::MAX - STORAGE_COST)
        .unwrap();
    assert_eq!(
        contract.offer_matching_funds(&id("alice"), &id("bob"), STORAGE_COST + 1),
        Err(LedgerError::Validation(ValidationError::AmountTooLarge))
    );
    assert_eq!(
        contract.get_expected_commitment(&id("alice"), &id("bob")),
        Ok(u128::MAX - STORAGE_COST)
    );
    assert!(contract
        .offer_matching_funds(&id("alice"), &id("bob"), STORAGE_COST)
        .is_ok());
    contract.set_matcher_amount(&id("alice"), &id("bob"), u128::MAX - STORAGE_COST);
    assert_eq!(
        contract.get_expected_commitment(&id("alice"), &id("bob")),
        Ok(u128::MAX - STORAGE_COST)
    );
}

#[test]
fn a_donation_of_nothing_is_refused() {
    let mut contract = two_matchers();
    assert_eq!(
        contract.donate(id("alice"), 0).err(),
        Some(LedgerError::Validation(ValidationError::EmptyDonation))
    );
    assert_eq!(
        commitments(&contract, "alice"),
        vec![("bob".to_string(), cents(30)), ("charlie".to_string(), cents(10))]
    );
}

#[test]
fn a_donation_beyond_what_can_be_counted_is_refused() {
    let mut contract = two_matchers();
    let before = commitments(&contract, "alice");
    assert_eq!(
        contract.donate(id("alice"), u128::MAX - cents(15)).err(),
        Some(LedgerError::Validation(ValidationError::AmountTooLarge))
    );
    assert_eq!(commitments(&contract, "alice"), before);
    let donation = u128::MAX - cents(40);
    let done = contract.donate(id("alice"), donation).unwrap();
    assert_eq!(done.transfer.amount, u128::MAX);
    assert_eq!(commitments(&contract, "alice"), Vec::new());
}

#[test]
fn a_rescission_needs_a_commitment() {
    let mut contract = two_matchers();
    assert_eq!(
        contract
            .rescind_matching_funds(&id("zoe"), &id("bob"), "1".to_string())
            .err(),
        Some(LedgerError::NoSuchRecipient)
    );
    assert_eq!(
        contract
            .rescind_matching_funds(&id("alice"), &id("danny"), "1".to_string())
            .err(),
        Some(LedgerError::NoSuchMatcher)
    );
    assert_eq!(
        contract
            .rescind_matching_funds(&id("zoe"), &id("bob"), "no number".to_string())
            .err(),
        Some(LedgerError::NoSuchRecipient)
    );
}

#[test]
fn a_rescission_needs_a_readable_amount() {
    let mut contract = two_matchers();
    assert_eq!(
        contract
            .rescind_matching_funds(&id("alice"), &id("bob"), "a lot".to_string())
            .err(),
        Some(LedgerError::Validation(ValidationError::MalformedAmount))
    );
    assert_eq!(
        contract
            .rescind_matching_funds(
                &id("alice"),
                &id("bob"),
                "999999999999999999999".to_string()
            )
            .err(),
        Some(LedgerError::Validation(ValidationError::AmountTooLarge))
    );
    assert_eq!(
        commitments(&contract, "alice"),
        vec![("bob".to_string(), cents(30)), ("charlie".to_string(), cents(10))]
    );
}

#[test]
fn a_rescission_of_nothing_changes_nothing() {
    let mut contract = two_matchers();
    let rescission = contract
        .rescind_matching_funds(&id("alice"), &id("bob"), "0".to_string())
        .unwrap();
    assert_eq!(rescission.transfer.amount, 0);
    assert_eq!(
        rescission.message,
        "bob is about to rescind 0 Ⓝ and then will only be committed to match donations to alice up to a maximum of 0.3 Ⓝ."
    );
    assert_eq!(
        commitments(&contract, "alice"),
        vec![("bob".to_string(), cents(30)), ("charlie".to_string(), cents(10))]
    );
}

#[test]
fn all_pledges_toward_a_recipient_are_deleted_at_once() {
    let mut contract = two_matchers();
    contract
        .offer_matching_funds(&id("zoe"), &id("bob"), cents(7))
        .unwrap();
    let removed = contract.delete_all_matches_associated_with_recipient(id("alice"));
    assert_eq!(
        pairs(&removed),
        vec![("bob".to_string(), cents(30)), ("charlie".to_string(), cents(10))]
    );
    assert_eq!(removed.get(&id("bob")), Some(cents(30)));
    assert_eq!(removed.get(&id("danny")), None);
    assert_eq!(contract.get_commitments(id("alice")), "{}");
    assert_eq!(commitments(&contract, "zoe"), vec![("bob".to_string(), cents(7))]);
    let nothing = contract.delete_all_matches_associated_with_recipient(id("alice"));
    assert!(nothing.is_empty());
}

#[test]
fn an_account_may_be_matcher_and_recipient() {
    let mut contract = Contract::new();
    contract
        .offer_matching_funds(&id("alice"), &id("bob"), cents(30))
        .unwrap();
    contract
        .offer_matching_funds(&id("bob"), &id("alice"), cents(20))
        .unwrap();
    let donation = contract.donate(id("bob"), cents(5)).unwrap();
    assert_eq!(donation.transfer.amount, cents(10));
    assert_eq!(commitments(&contract, "alice"), vec![("bob".to_string(), cents(30))]);
    assert_eq!(commitments(&contract, "bob"), vec![("alice".to_string(), cents(15))]);
}

#[test]
fn a_transfer_names_its_destination_and_amount() {
    let contract = Contract::new();
    let transfer = contract.transfer_from_escrow(&id("bob"), cents(3));
    assert_eq!(transfer.destination, id("bob"));
    assert_eq!(transfer.amount, cents(3));
}

#[test]
fn pledges_can_be_set_and_copied() {
    let mut pledges = MatcherAmountMap::new();
    pledges.set(&id("charlie"), 3);
    pledges.set(&id("bob"), 2);
    pledges.set(&id("danny"), 4);
    pledges.set(&id("charlie"), 5);
    pledges.set(&id("danny"), 0);
    pledges.set(&id("zoe"), 9);
    let copy = pledges.clone();
    assert_eq!(
        pairs(&copy),
        vec![("bob".to_string(), 2), ("charlie".to_string(), 5), ("zoe".to_string(), 9)]
    );
    assert_eq!(copy.get(&id("charlie")), Some(5));
    assert_eq!(copy.get(&id("danny")), None);
}

#[test]
fn names_are_written_as_json_strings() {
    let mut contract = Contract::new();
    let names = [
        "plain",
        "with \"quotes\"",
        "back\\slash",
        "line\nbreak\r",
        "tab\tstop",
        "\u{8}\u{c}",
        "\u{0}\u{1}\u{1f}\u{7f}",
        "é Ⓝ",
        "",
    ];
    for name in names {
        contract
            .offer_matching_funds(&id("alice"), &id(name), cents(10))
            .unwrap();
    }
    let amount = "\"0.1 Ⓝ\"";
    let expected = [
        "\"\"",
        "\"\\u0000\\u0001\\u001f\u{7f}\"",
        "\"\\b\\f\"",
        "\"back\\\\slash\"",
        "\"line\\nbreak\\r\"",
        "\"plain\"",
        "\"tab\\tstop\"",
        "\"with \\\"quotes\\\"\"",
        "\"é Ⓝ\"",
    ]
    .map(|name| format!("{}:{}", name, amount))
    .join(",");
    assert_eq!(contract.get_commitments(id("alice")), format!("{{{}}}", expected));
}
