//! `firmware`: installed versions, and whether they are current.

use vstd::prelude::*;
use vstd::string::*;

use crate::cli::{Output, OutputView};
use crate::device::status::{Status, StatusView};
use crate::gui::parts_named;
use crate::text::{has_prefix, has_suffix, pad, padded, same, title, title_case};

verus! {

impl StatusView {
    /// The product whose firmware a part runs.
    pub open spec fn part_product(self, part: Seq<char>) -> u16 {
        if part == "mouse"@ {
            self.effective_product_id
        } else {
            self.product_id
        }
    }

    /// The products to ask the version service about, one per part.
    pub open spec fn queries(self, offline: bool) -> Seq<u16> {
        if offline {
            Seq::empty()
        } else {
            self.firmware.map_values(
                |part: (Seq<char>, Seq<char>)| self.part_product(part.0),
            )
        }
    }
}

/// The products to ask the version service about, one per part; none where it is
/// not to be asked.
pub fn queries(status: &Status, offline: bool) -> (products: Vec<u16>)
    ensures
        products@ == status@.queries(offline),
{
    let mut products: Vec<u16> = Vec::new();
    if offline {
        assert(products@ =~= status@.queries(offline));
        return products;
    }
    let ghost all = status@.firmware;
    let ghost f = |part: (Seq<char>, Seq<char>)| status@.part_product(part.0);
    let mut i: usize = 0;
    assert(products@ =~= all.take(0).map_values(f));
    while i < status.firmware.len()
        invariant
            i <= status.firmware@.len(),
            all == status@.firmware,
            f == |part: (Seq<char>, Seq<char>)| status@.part_product(part.0),
            products@ == all.take(i as int).map_values(f),
        decreases status.firmware.len() - i,
    {
        let product: u16 = if same(status.firmware[i].0, "mouse") {
            status.effective_product_id
        } else {
            status.product_id
        };
        assert(product == f(all[i as int]));
        products.push(product);
        assert(all.take(i + 1).map_values(f) =~= all.take(i as int).map_values(f).push(
            f(all[i as int]),
        ));
        i += 1;
    }
    assert(all.take(i as int) =~= all);
    products
}

/// A line on a part: its version, and how that compares with the latest one.
pub open spec fn version_line(
    part: (Seq<char>, Seq<char>),
    offline: bool,
    latest: Option<Seq<char>>,
) -> Seq<char> {
    let head = "  "@ + padded(title(part.0), 9) + " "@ + part.1;
    match latest {
        None => head + if offline {
            ""@
        } else {
            "  (latest unknown)"@
        },
        Some(latest) => head + "   latest "@ + latest + if latest == part.1 {
            "   up to date"@
        } else {
            "   UPDATE AVAILABLE"@
        },
    }
}

/// The latest version of a part, as far as it was asked for and is known.
pub open spec fn latest_of(offline: bool, latest: Seq<Option<String>>, i: int) -> Option<
    Seq<char>,
> {
    if offline {
        None
    } else {
        match latest[i] {
            Some(version) => Some(version@),
            None => None,
        }
    }
}

/// One line per part.
pub open spec fn version_lines(
    firmware: Seq<(Seq<char>, Seq<char>)>,
    offline: bool,
    latest: Seq<Option<String>>,
) -> Seq<Seq<char>> {
    Seq::new(
        firmware.len(),
        |i: int| version_line(firmware[i], offline, latest_of(offline, latest, i)),
    )
}

/// A part's latest version is known and is not the installed one.
pub open spec fn is_outdated(
    firmware: Seq<(Seq<char>, Seq<char>)>,
    offline: bool,
    latest: Seq<Option<String>>,
    i: int,
) -> bool {
    latest_of(offline, latest, i) matches Some(version) && version != firmware[i].1
}

/// An update is available.
pub open spec fn outdated(
    firmware: Seq<(Seq<char>, Seq<char>)>,
    offline: bool,
    latest: Seq<Option<String>>,
) -> bool {
    exists|i: int| 0 <= i < firmware.len() && #[trigger] is_outdated(firmware, offline, latest, i)
}

/// The version service was asked and did not say.
pub open spec fn unreachable_service(
    firmware: Seq<(Seq<char>, Seq<char>)>,
    offline: bool,
    latest: Seq<Option<String>>,
) -> bool {
    !offline && exists|i: int| 0 <= i < firmware.len() && (#[trigger] latest[i]) is None
}

/// What `firmware` prints.
pub open spec fn report_lines(
    firmware: Seq<(Seq<char>, Seq<char>)>,
    offline: bool,
    latest: Seq<Option<String>>,
) -> Seq<Seq<char>> {
    if firmware.len() == 0 {
        seq!["  no firmware version reported"@]
    } else {
        version_lines(firmware, offline, latest) + (if unreachable_service(
            firmware,
            offline,
            latest,
        ) {
            seq![
                "\n  Could not reach Ninjutso's version service; installed versions shown above."@,
            ]
        } else {
            Seq::empty()
        }) + seq![
            if outdated(firmware, offline, latest) {
                "\n  Updating is Windows-only -- Ninjutso ship firmware as an .exe.\n  This tool never writes firmware."@
            } else {
                "\n  This tool never writes firmware; flashing is Windows-only."@
            },
        ]
    }
}

/// `firmware`: print the installed versions beside the latest ones. The exit
/// code is 1 exactly where an update is available.
pub fn report_versions(
    status: &Status,
    offline: bool,
    latest: &Vec<Option<String>>,
    out: &mut Output,
) -> (code: u8)
    requires
        parts_named(status@.firmware),
        offline || latest@.len() == status@.firmware.len(),
    ensures
        final(out)@ == (OutputView {
            lines: old(out)@.lines + report_lines(status@.firmware, offline, latest@),
            ..old(out)@
        }),
        code == if outdated(status@.firmware, offline, latest@) {
            1u8
        } else {
            0u8
        },
        code == 1 <==> exists|i: int|
            0 <= i < status@.firmware.len() && #[trigger] has_update(
                status@.firmware[i].1,
                offline,
                latest@[i],
            ),
{
    let ghost start = out@;
    let ghost all = status@.firmware;
    let ghost lines = version_lines(all, offline, latest@);
    assert(all.len() == status.firmware@.len());
    if status.firmware.len() == 0 {
        out.say("  no firmware version reported".to_owned());
        assert(out@ =~= (OutputView {
            lines: start.lines + report_lines(all, offline, latest@),
            ..start
        }));
        proof {
            lemma_updates(all, offline, latest@);
        }
        return 0;
    }
    let mut stale = false;
    let mut silent = false;
    let mut i: usize = 0;
    assert(out@ =~= (OutputView { lines: start.lines + lines.take(0), ..start }));
    while i < status.firmware.len()
        invariant
            i <= status.firmware@.len(),
            all == status@.firmware,
            all.len() == status.firmware@.len(),
            parts_named(all),
            offline || latest@.len() == all.len(),
            lines == version_lines(all, offline, latest@),
            out@ == (OutputView { lines: start.lines + lines.take(i as int), ..start }),
            stale <==> exists|j: int|
                0 <= j < i && #[trigger] is_outdated(all, offline, latest@, j),
            silent <==> !offline && exists|j: int| 0 <= j < i && (#[trigger] latest@[j]) is None,
        decreases status.firmware.len() - i,
    {
        let part = status.firmware[i].0;
        let installed = status.firmware[i].1.as_str();
        assert(all[i as int] == (part@, installed@));
        let mut line = "  ".to_owned();
        line.append(pad(title_case(part).as_str(), 9).as_str());
        line.append(" ");
        line.append(installed);
        if offline {
            line.append("");
            assert(!is_outdated(all, offline, latest@, i as int));
        } else {
            match &latest[i] {
                None => {
                    silent = true;
                    line.append("  (latest unknown)");
                    assert(latest@[i as int] is None);
                    assert(!is_outdated(all, offline, latest@, i as int));
                },
                Some(version) => {
                    line.append("   latest ");
                    line.append(version.as_str());
                    if same(version.as_str(), installed) {
                        line.append("   up to date");
                        assert(!is_outdated(all, offline, latest@, i as int));
                    } else {
                        stale = true;
                        line.append("   UPDATE AVAILABLE");
                        assert(is_outdated(all, offline, latest@, i as int));
                    }
                },
            }
        }
        assert(line@ == lines[i as int]);
        out.say(line);
        assert(lines.take(i + 1) =~= lines.take(i as int).push(lines[i as int]));
        assert(out@ =~= (OutputView { lines: start.lines + lines.take(i + 1), ..start }));
        i += 1;
    }
    assert(lines.take(i as int) =~= lines);
    assert(stale == outdated(all, offline, latest@));
    proof {
        lemma_updates(all, offline, latest@);
    }
    assert(silent == unreachable_service(all, offline, latest@));
    if silent {
        out.say(
            "\n  Could not reach Ninjutso's version service; installed versions shown above.".to_owned(),
        );
    }
    let code: u8 = if stale {
        out.say(
            "\n  Updating is Windows-only -- Ninjutso ship firmware as an .exe.\n  This tool never writes firmware.".to_owned(),
        );
        1
    } else {
        out.say("\n  This tool never writes firmware; flashing is Windows-only.".to_owned());
        0
    };
    assert(out@ =~= (OutputView {
        lines: start.lines + report_lines(all, offline, latest@),
        ..start
    }));
    code
}

// -- laws ---------------------------------------------------------------------

/// The check fails soft: where the version service says nothing, or is not
/// asked, the installed versions are still printed and no update is claimed.
pub proof fn lemma_fails_soft(
    firmware: Seq<(Seq<char>, Seq<char>)>,
    offline: bool,
    latest: Seq<Option<String>>,
)
    requires
        offline || forall|i: int| 0 <= i < firmware.len() ==> (#[trigger] latest[i]) is None,
    ensures
        !outdated(firmware, offline, latest),
        version_lines(firmware, offline, latest).len() == firmware.len(),
        forall|i: int|
            0 <= i < firmware.len() ==> #[trigger] version_lines(firmware, offline, latest)[i]
                == version_line(firmware[i], offline, None),
{
    if outdated(firmware, offline, latest) {
        let i = choose|i: int|
            0 <= i < firmware.len() && #[trigger] is_outdated(firmware, offline, latest, i);
        assert(latest_of(offline, latest, i) is None);
    }
}

/// A version that was asked for is known and is another than the one that is
/// installed.
pub open spec fn has_update(installed: Seq<char>, offline: bool, latest: Option<String>) -> bool {
    !offline && latest is Some && latest->0@ != installed
}

/// An update is available exactly where some part, whichever it is and whatever
/// is known of the others, has one.
pub proof fn lemma_updates(
    firmware: Seq<(Seq<char>, Seq<char>)>,
    offline: bool,
    latest: Seq<Option<String>>,
)
    ensures
        outdated(firmware, offline, latest) <==> exists|i: int|
            0 <= i < firmware.len() && #[trigger] has_update(firmware[i].1, offline, latest[i]),
{
    if outdated(firmware, offline, latest) {
        let i = choose|i: int|
            0 <= i < firmware.len() && #[trigger] is_outdated(firmware, offline, latest, i);
        assert(has_update(firmware[i].1, offline, latest[i]));
    }
    if exists|i: int|
        0 <= i < firmware.len() && #[trigger] has_update(firmware[i].1, offline, latest[i]) {
        let i = choose|i: int|
            0 <= i < firmware.len() && #[trigger] has_update(firmware[i].1, offline, latest[i]);
        assert(is_outdated(firmware, offline, latest, i));
    }
}

/// Every part has a line of its own: it starts with the part and the version that
/// is installed, goes on with the latest one where it is known, and says whether
/// that is an update.
pub proof fn lemma_part_lines(
    firmware: Seq<(Seq<char>, Seq<char>)>,
    offline: bool,
    latest: Seq<Option<String>>,
    i: int,
)
    requires
        0 <= i < firmware.len(),
    ensures
        ({
            let line = report_lines(firmware, offline, latest)[i];
            let head = "  "@ + padded(title(firmware[i].0), 9) + " "@ + firmware[i].1;
            let known = !offline && latest[i] is Some;
            &&& report_lines(firmware, offline, latest).len() > firmware.len()
            &&& has_prefix(line, head)
            &&& offline ==> line == head
            &&& !offline && !known ==> line == head + "  (latest unknown)"@
            &&& known ==> has_prefix(line, head + "   latest "@ + latest[i]->0@)
            &&& has_update(firmware[i].1, offline, latest[i]) ==> has_suffix(
                line,
                "   UPDATE AVAILABLE"@,
            )
            &&& known && !has_update(firmware[i].1, offline, latest[i]) ==> has_suffix(
                line,
                "   up to date"@,
            )
        }),
{
    let lines = version_lines(firmware, offline, latest);
    let line = lines[i];
    let head = "  "@ + padded(title(firmware[i].0), 9) + " "@ + firmware[i].1;
    assert(report_lines(firmware, offline, latest)[i] == line);
    assert(line.take(head.len() as int) =~= head);
    if offline {
        reveal_strlit("");
        assert(line =~= head);
    } else if let Some(version) = latest[i] {
        let more = head + "   latest "@ + version@;
        assert(line.take(more.len() as int) =~= more);
        assert(line.skip(more.len() as int) =~= if version@ == firmware[i].1 {
            "   up to date"@
        } else {
            "   UPDATE AVAILABLE"@
        });
    }
}

/// The report closes with how an update is come by exactly where there is one,
/// and owns up before that exactly where the version service did not say
/// something that it was asked.
pub proof fn lemma_closing_lines(
    firmware: Seq<(Seq<char>, Seq<char>)>,
    offline: bool,
    latest: Seq<Option<String>>,
)
    requires
        firmware.len() > 0,
    ensures
        ({
            let lines = report_lines(firmware, offline, latest);
            let unsaid = !offline && exists|i: int|
                0 <= i < firmware.len() && (#[trigger] latest[i]) is None;
            &&& lines.len() == firmware.len() + if unsaid {
                2int
            } else {
                1
            }
            &&& unsaid ==> lines[firmware.len() as int]
                == "\n  Could not reach Ninjutso's version service; installed versions shown above."@
            &&& lines.last() == if exists|i: int|
                0 <= i < firmware.len() && #[trigger] has_update(
                    firmware[i].1,
                    offline,
                    latest[i],
                ) {
                "\n  Updating is Windows-only -- Ninjutso ship firmware as an .exe.\n  This tool never writes firmware."@
            } else {
                "\n  This tool never writes firmware; flashing is Windows-only."@
            }
        }),
{
    lemma_updates(firmware, offline, latest);
}

/// Nobody is asked when offline, and elsewhere the mouse's version is asked for
/// under the paired mouse's product id, every other part's under the
/// interface's own.
pub proof fn lemma_queries(status: StatusView, offline: bool)
    ensures
        offline ==> status.queries(offline).len() == 0,
        !offline ==> status.queries(offline).len() == status.firmware.len(),
        !offline ==> forall|i: int|
            0 <= i < status.firmware.len() ==> #[trigger] status.queries(offline)[i] == if
            status.firmware[i].0 == "mouse"@ {
                status.effective_product_id
            } else {
                status.product_id
            },
{
}

} // verus!
