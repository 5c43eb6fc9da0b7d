use chart_relative::params::{ChartComparison, ChartOptions, DisplayMode, ViewPreference};
use chart_relative::{Chart, Palette};

#[test]
fn test_two_digit_width() {
    let chart = Chart::new(
        &[23, 32, 44, 0, 2, 44, 5, 23, 42, 29, 16],
        None,
        ChartOptions::default(),
    );
    println!("\ntwo_digit_width\n{}", chart.render());
}

#[test]
fn test_excessive_value_too_small_for_height() {
    let chart = Chart::new(
        &[0, 6837, 18067, 352038],
        None,
        ChartOptions {
            height: 5,
            view: ViewPreference::Top,
            display: DisplayMode::Compact,
        },
    );
    println!("\nexcessive_value_too_small_for_height\n{}", chart.render());
}

#[test]
fn test_prefer_small_but_only_large() {
    let chart = Chart::new(
        &[2332, 3232, 3244, 0],
        None,
        ChartOptions {
            height: 5,
            view: ViewPreference::Bottom,
            display: DisplayMode::Compact,
        },
    );
    println!("\nprefer_small_but_large\n{}", chart.render());
}

#[test]
fn test_prefer_large_but_only_small() {
    let chart = Chart::new(
        &[23, 32, 44, 0],
        None,
        ChartOptions {
            height: 10,
            view: ViewPreference::Top,
            display: DisplayMode::Compact,
        },
    );
    println!("\nprefer_large_but_small\n{}", chart.render());
}

#[test]
fn test_comparison_portrait() {
    let chart = Chart::new(
        &[
            0, 22, 2, 9, 223, 34, 33, 66, 76, 122, 199, 33, 12, 89, 1222, 100,
        ],
        Some(ChartComparison {
            data: &[
                14, 20, 1, 8, 223, 12, 56, 79, 69, 100, 1122, 33, 45, 9, 9000, 78,
            ],
        }),
        ChartOptions {
            height: 16,
            view: ViewPreference::Bottom,
            display: DisplayMode::Portrait {
                labels: &[
                    "first",
                    "second",
                    "third",
                    "fourth",
                    "fifth",
                    "sixth",
                    "seventh",
                    "eighth",
                    "nineth",
                    "tenth",
                    "eleventh",
                    "twelfth",
                    "thirteenth",
                    "fourteenth",
                    "fifteenth",
                    "sixteenth",
                ],
            },
        },
    );
    println!("\ncomparison_portrait\n{}", chart.render());
}

#[test]
fn plain_text_of_small_values() {
    let chart = Chart::new(
        &[23, 32, 44, 0],
        None,
        ChartOptions {
            height: 10,
            view: ViewPreference::Bottom,
            display: DisplayMode::Compact,
        },
    );
    let (steps, cmp) = chart.scale_to_steps();
    assert_eq!(steps, vec![41, 58, 80, 0]);
    assert!(cmp.is_none());
    let expected = [
        "44│  █ \n",
        "  │  █ \n",
        "  │ ▂█ \n",
        "  │ ██ \n",
        "  │▁██ \n",
        "  │███ \n",
        "  │███ \n",
        "  │███ \n",
        "  │███ \n",
        "23│███⨯\n",
        "   0123\n",
    ]
    .join("");
    assert_eq!(chart.render_with(&Palette::plain()), expected);
}

#[test]
fn large_value_shown_from_the_top() {
    let chart = Chart::new(
        &[0, 6837, 18067, 352038],
        None,
        ChartOptions {
            height: 5,
            view: ViewPreference::Top,
            display: DisplayMode::Compact,
        },
    );
    let (steps, _) = chart.scale_to_steps();
    assert_eq!(steps, vec![0, -1, 2, 40]);
    let expected = [
        "352038│   █\n",
        "      │   █\n",
        "      │   █\n",
        "      │   █\n",
        " 18067│⨯🢃▂█\n",
        "       0123\n",
    ]
    .join("");
    assert_eq!(chart.render_with(&Palette::plain()), expected);
}

#[test]
fn small_values_shown_from_the_bottom() {
    let chart = Chart::new(
        &[2, 3, 1000],
        None,
        ChartOptions {
            height: 1,
            view: ViewPreference::Bottom,
            display: DisplayMode::Compact,
        },
    );
    let (steps, _) = chart.scale_to_steps();
    assert_eq!(steps, vec![5, 8, -2]);
    assert_eq!(chart.render_with(&Palette::plain()), "3│▅█🢁\n  012\n");
}

#[test]
fn only_large_values_under_bottom_view() {
    let chart = Chart::new(
        &[2332, 3232, 3244, 0],
        None,
        ChartOptions {
            height: 5,
            view: ViewPreference::Bottom,
            display: DisplayMode::Compact,
        },
    );
    let (steps, _) = chart.scale_to_steps();
    assert_eq!(steps, vec![28, 39, 40, 0]);
}

#[test]
fn all_zero_values_draw_zero_marks() {
    let chart = Chart::new(
        &[0, 0],
        None,
        ChartOptions {
            height: 2,
            view: ViewPreference::Top,
            display: DisplayMode::Compact,
        },
    );
    let (steps, _) = chart.scale_to_steps();
    assert_eq!(steps, vec![0, 0]);
    assert_eq!(chart.render_with(&Palette::plain()), "0│  \n0│⨯⨯\n  01\n");
}

#[test]
fn line_count_is_height_plus_one() {
    for height in 1..6u16 {
        let chart = Chart::new(
            &[5, 0, 17, 3, 9, 1, 2, 3, 4, 5, 6, 7],
            None,
            ChartOptions {
                height,
                view: ViewPreference::Bottom,
                display: DisplayMode::Compact,
            },
        );
        let text = chart.render();
        assert_eq!(text.matches('\n').count(), height as usize + 1);
        assert!(text.ends_with('\n'));
    }
}

#[test]
fn steps_stay_in_range() {
    let data = [0, 1, 7, 8, 9, 64, 65, 1000, 65535, 65536, 4000000000];
    for height in [1u16, 2, 8, 100] {
        for view in [ViewPreference::Bottom, ViewPreference::Top] {
            let chart = Chart::new(
                &data,
                None,
                ChartOptions {
                    height,
                    view,
                    display: DisplayMode::Compact,
                },
            );
            let (steps, _) = chart.scale_to_steps();
            for s in steps {
                assert!(s == -2 || s == -1 || s == 0 || (1 <= s && s as i32 <= height as i32 * 8));
            }
        }
    }
}

#[test]
fn rendering_twice_gives_the_same_text() {
    let chart = Chart::new(
        &[3, 1, 4, 1, 5, 9, 2, 6],
        Some(ChartComparison {
            data: &[2, 7, 1, 8, 2, 8, 1, 8],
        }),
        ChartOptions::default(),
    );
    assert_eq!(chart.render(), chart.render());
    assert_eq!(
        chart.render_with(&Palette::plain()),
        chart.render_with(&Palette::plain())
    );
}

#[test]
fn scaled_values_keep_their_steps() {
    let small = Chart::new(
        &[1, 2, 3, 4],
        None,
        ChartOptions {
            height: 4,
            view: ViewPreference::Bottom,
            display: DisplayMode::Compact,
        },
    );
    let large = Chart::new(
        &[3, 6, 9, 12],
        None,
        ChartOptions {
            height: 4,
            view: ViewPreference::Bottom,
            display: DisplayMode::Compact,
        },
    );
    assert_eq!(small.scale_to_steps().0, vec![8, 16, 24, 32]);
    assert_eq!(large.scale_to_steps().0, small.scale_to_steps().0);
}

#[test]
fn comparison_is_painted_under_and_over() {
    let chart = Chart::new(
        &[3, 3],
        Some(ChartComparison { data: &[1, 5] }),
        ChartOptions {
            height: 1,
            view: ViewPreference::Bottom,
            display: DisplayMode::Compact,
        },
    );
    let (steps, cmp) = chart.scale_to_steps();
    assert_eq!(steps, vec![4, 4]);
    assert_eq!(cmp, Some(vec![1, 8]));
    assert_eq!(chart.render_with(&Palette::plain()), "5│▄▁ ▄█ \n  0  1  \n");
    colored::control::set_override(true);
    let text = chart.render();
    colored::control::unset_override();
    let expected = [
        "5│",
        "\u{1b}[97m▄\u{1b}[0m",
        "\u{1b}[92m▁\u{1b}[0m",
        " ",
        "\u{1b}[97m▄\u{1b}[0m",
        "\u{1b}[91m█\u{1b}[0m",
        " \n  0  1  \n",
    ]
    .join("");
    assert_eq!(text, expected);
}

#[test]
fn primary_bars_alternate_shades() {
    let chart = Chart::new(
        &[8, 8],
        None,
        ChartOptions {
            height: 1,
            view: ViewPreference::Bottom,
            display: DisplayMode::Compact,
        },
    );
    colored::control::set_override(true);
    let text = chart.render();
    colored::control::unset_override();
    assert_eq!(
        text,
        "8│\u{1b}[97m█\u{1b}[0m\u{1b}[37m█\u{1b}[0m\n  01\n"
    );
}

#[test]
fn legend_lists_each_label_once() {
    let labels = [
        "first",
        "second",
        "third",
        "fourth",
        "fifth",
        "sixth",
        "seventh",
        "eighth",
        "nineth",
        "tenth",
        "eleventh",
        "twelfth",
        "thirteenth",
        "fourteenth",
        "fifteenth",
        "sixteenth",
    ];
    let chart = Chart::new(
        &[
            0, 22, 2, 9, 223, 34, 33, 66, 76, 122, 199, 33, 12, 89, 1222, 100,
        ],
        Some(ChartComparison {
            data: &[
                14, 20, 1, 8, 223, 12, 56, 79, 69, 100, 1122, 33, 45, 9, 9000, 78,
            ],
        }),
        ChartOptions {
            height: 16,
            view: ViewPreference::Bottom,
            display: DisplayMode::Portrait { labels: &labels },
        },
    );
    let text = chart.render_with(&Palette::plain());
    let lines: Vec<&str> = text.lines().collect();
    assert_eq!(lines.len(), 16 + 1 + 6);
    assert!(lines[0].starts_with("122│"));
    assert!(lines[15].starts_with("  1│⨯"));
    assert_eq!(
        lines[16],
        "    0  1  2  3  4  5  6  7  8  9  10 11 12 13 14 15 "
    );
    assert_eq!(lines[17], " 0: first         6: seventh      12: thirteenth   ");
    assert_eq!(
        lines[21],
        " 4: fifth        10: eleventh                      "
    );
    assert_eq!(
        lines[22],
        " 5: sixth        11: twelfth                       "
    );
}

#[test]
fn long_labels_are_cut_to_twelve_characters() {
    let chart = Chart::new(
        &[1],
        None,
        ChartOptions {
            height: 1,
            view: ViewPreference::Top,
            display: DisplayMode::Portrait {
                labels: &["abcdefghijklmnopq"],
            },
        },
    );
    assert_eq!(
        chart.render_with(&Palette::plain()),
        "1│█\n  0\n 0: abcdefghijkl \n"
    );
}

#[test]
fn default_options() {
    let options = ChartOptions::default();
    assert_eq!(options.height, 8);
    assert_eq!(options.view, ViewPreference::Top);
    assert!(matches!(options.display, DisplayMode::Compact));
}

#[test]
fn scaled_outliers_keep_their_steps() {
    let options = || ChartOptions {
        height: 1,
        view: ViewPreference::Bottom,
        display: DisplayMode::Compact,
    };
    let small = Chart::new(&[100, 0, 200], None, options());
    let large = Chart::new(&[300, 0, 600], None, options());
    assert_eq!(small.scale_to_steps().0, vec![4, 0, 8]);
    assert_eq!(large.scale_to_steps().0, small.scale_to_steps().0);
}
