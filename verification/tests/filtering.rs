use civ_picker::civ::Civ;
use civ_picker::filter::filter_civs;

fn civ(name: &str, leader: &str, bias: &[&str]) -> Civ {
    Civ {
        name: name.to_string(),
        leader: leader.to_string(),
        bias: bias.iter().map(|b| b.to_string()).collect(),
    }
}

fn strings(items: &[&str]) -> Vec<String> {
    items.iter().map(|s| s.to_string()).collect()
}

fn names(civs: &[Civ]) -> Vec<String> {
    civs.iter().map(|c| c.name.clone()).collect()
}

#[test]
fn no_bans_keeps_everything_in_order() {
    let civs = vec![
        civ("America", "Teddy", &["None"]),
        civ("Arabia", "Saladin", &["None"]),
        civ("Aztec", "Montezuma", &["None"]),
    ];
    let kept = filter_civs(civs.clone(), &strings(&[]), &strings(&[]), &strings(&[]));
    assert_eq!(kept, civs);
}

#[test]
fn banned_name_is_removed_case_sensitively() {
    let civs = vec![
        civ("America", "Teddy", &["None"]),
        civ("Arabia", "Saladin", &["None"]),
    ];
    let kept = filter_civs(civs.clone(), &strings(&["America"]), &strings(&[]), &strings(&[]));
    assert_eq!(names(&kept), vec!["Arabia"]);

    let kept = filter_civs(civs, &strings(&["america"]), &strings(&[]), &strings(&[]));
    assert_eq!(names(&kept), vec!["America", "Arabia"]);
}

#[test]
fn leader_only_banned_record_is_removed() {
    let civs = vec![
        civ("America", "Teddy", &["None"]),
        civ("Arabia", "Saladin", &["None"]),
    ];
    let kept = filter_civs(civs, &strings(&[]), &strings(&["teddy"]), &strings(&[]));
    assert_eq!(names(&kept), vec!["Arabia"]);
}

#[test]
fn banned_bias_is_lowercased_before_matching() {
    let civs = vec![
        civ("America", "Teddy", &["coastal"]),
        civ("Arabia", "Saladin", &["desert"]),
    ];
    let kept = filter_civs(civs, &strings(&[]), &strings(&[]), &strings(&["COASTAL"]));
    assert_eq!(names(&kept), vec!["Arabia"]);
}

#[test]
fn filtering_twice_changes_nothing() {
    let civs = vec![
        civ("America", "Teddy", &["coastal"]),
        civ("Arabia", "Saladin", &["desert"]),
        civ("Aztec", "Montezuma", &["jungle"]),
        civ("Rome", "Trajan", &["None"]),
    ];
    let banned_civs = strings(&["Rome"]);
    let banned_leaders = strings(&["saladin"]);
    let banned_biases = strings(&["Jungle"]);
    let once = filter_civs(civs, &banned_civs, &banned_leaders, &banned_biases);
    let twice = filter_civs(once.clone(), &banned_civs, &banned_leaders, &banned_biases);
    assert_eq!(names(&once), vec!["America"]);
    assert_eq!(twice, once);
}
