use donation_matcher_contract::generic::{near_string_to_yocto, yocto_to_near_string};
use donation_matcher_contract::{AccountId, Amount, Contract};

/// The accounts of the scenarios, by their number: 0 is Alice, 1 is Bob, 2 is
/// Charlie and 3 is Danny.
fn accounts(index: usize) -> AccountId {
    let names = ["alice", "bob", "charlie", "danny"];
    AccountId::new(names[index].to_string())
}

fn near(text: &str) -> Amount {
    near_string_to_yocto(text.to_string()).unwrap()
}

#[test]
fn test_offer_matching_funds_and_get_commitments_and_rescind_matching_funds() {
    let mut contract = Contract::new();
    let recipient = accounts(0);
    let _matcher1_offer_result = contract
        .offer_matching_funds(&recipient, &accounts(1), near("0.3"))
        .unwrap();
    let _matcher2_offer_result = contract
        .offer_matching_funds(&recipient, &accounts(2), near("0.1"))
        .unwrap();
    let result = contract.get_commitments(recipient.clone());
    assert_eq!(
        result,
        "{\"bob\":\"0.3 Ⓝ\",\"charlie\":\"0.1 Ⓝ\"}".to_string()
    );
    let _matcher1_rescind_result = contract
        .rescind_matching_funds(&recipient, &accounts(1), "0.02 Ⓝ".to_string())
        .unwrap();
    let result_after_rescind = contract.get_commitments(recipient.clone());
    assert_eq!(
        result_after_rescind,
        "{\"bob\":\"0.28 Ⓝ\",\"charlie\":\"0.1 Ⓝ\"}".to_string()
    );
}

#[test]
fn test_repeated_offers_and_rescinds() {
    let mut contract = Contract::new();
    let recipient = accounts(0);
    let _matcher1_offer_result = contract
        .offer_matching_funds(&recipient, &accounts(1), near("0.1"))
        .unwrap();
    let _matcher2_offer_result = contract
        .offer_matching_funds(&recipient, &accounts(1), near("0.1"))
        .unwrap();
    let result = contract.get_commitments(recipient.clone());
    assert_eq!(result, "{\"bob\":\"0.2 Ⓝ\"}".to_string());
    let _matcher1_rescind_result1 = contract
        .rescind_matching_funds(&recipient, &accounts(1), "0.02 Ⓝ".to_string())
        .unwrap();
    let result_after_rescind1 = contract.get_commitments(recipient.clone());
    assert_eq!(result_after_rescind1, "{\"bob\":\"0.18 Ⓝ\"}".to_string());
    let _matcher1_rescind_result2 = contract
        .rescind_matching_funds(&recipient, &accounts(1), "99 Ⓝ".to_string())
        .unwrap();
    let result_after_rescind2 = contract.get_commitments(recipient.clone());
    assert_eq!(result_after_rescind2, "{}".to_string());
}

#[test]
fn test_offer_matching_funds_and_donate_and_get_commitments() {
    let mut contract = Contract::new();
    let offer = near("0.3");
    let donation = near("0.2");
    let recipient = accounts(0);
    let _matcher1_offer_result = contract
        .offer_matching_funds(&recipient, &accounts(1), offer)
        .unwrap();
    let _donate_result = contract.donate(recipient.clone(), donation).unwrap();
    let commitments_after_donate = contract.get_commitments(recipient.clone());
    assert_eq!(
        commitments_after_donate,
        format!(
            "{{\"bob\":\"{}\"}}",
            yocto_to_near_string(offer - donation)
        )
    );
}
