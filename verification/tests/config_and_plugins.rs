use exodus::config::Config;
use exodus::explorer::is_hidden_entry;
use exodus::plugin;
use exodus::plugins::{ExamplePlugin, PluginContext, PluginManager};

#[test]
fn config_defaults() {
    let c = Config::default();
    assert_eq!(c.theme, "dark");
    assert_eq!(c.font_size, 14);
    assert_eq!(c.tab_size, 4);
    assert!(!c.auto_save);
    assert!(c.line_numbers);
}

#[test]
fn config_document_is_exact() {
    let c = Config::default();
    assert_eq!(
        c.render(),
        "theme = \"dark\"\nfont_size = 14\ntab_size = 4\nauto_save = false\nline_numbers = true\n"
    );
}

#[test]
fn config_round_trip() {
    let c = Config {
        theme: "light".to_string(),
        font_size: 16,
        tab_size: 8,
        auto_save: true,
        line_numbers: false,
    };
    let back = Config::parse(c.render().as_str()).unwrap();
    assert_eq!(back.theme, c.theme);
    assert_eq!(back.font_size, c.font_size);
    assert_eq!(back.tab_size, c.tab_size);
    assert_eq!(back.auto_save, c.auto_save);
    assert_eq!(back.line_numbers, c.line_numbers);
}

#[test]
fn config_round_trip_of_defaults() {
    let c = Config::default();
    let back = Config::parse(c.render().as_str()).unwrap();
    assert_eq!(back.theme, c.theme);
    assert_eq!(back.font_size, c.font_size);
    assert_eq!(back.tab_size, c.tab_size);
    assert_eq!(back.auto_save, c.auto_save);
    assert_eq!(back.line_numbers, c.line_numbers);
}

#[test]
fn config_round_trip_survives_quotes_and_backslashes() {
    let c = Config {
        theme: "so \"dark\" it\\hurts".to_string(),
        font_size: 11,
        tab_size: 2,
        auto_save: true,
        line_numbers: true,
    };
    let text = c.render();
    assert!(text.contains("\\\""));
    let back = Config::parse(text.as_str()).unwrap();
    assert_eq!(back.theme, c.theme);
    assert_eq!(back.font_size, c.font_size);
    assert_eq!(back.tab_size, c.tab_size);
    assert_eq!(back.auto_save, c.auto_save);
    assert_eq!(back.line_numbers, c.line_numbers);
}

#[test]
fn from_text_falls_back_to_defaults() {
    let c = Config::from_text("left on disk by some other program");
    assert_eq!(c.theme, "dark");
    assert_eq!(c.font_size, 14);
    assert_eq!(c.tab_size, 4);
    assert!(!c.auto_save);
    assert!(c.line_numbers);
    let d = Config::from_text(Config::default().render().as_str());
    assert_eq!(d.theme, "dark");
}

#[test]
fn corrupt_documents_are_rejected() {
    assert!(Config::parse("").is_none());
    assert!(Config::parse("not a config").is_none());
    assert!(Config::parse("theme = \"dark\"\nfont_size = \ntab_size = 4\nauto_save = false\nline_numbers = true\n").is_none());
    assert!(Config::parse("theme = \"dark\"\nfont_size = 99999999999\ntab_size = 4\nauto_save = false\nline_numbers = true\n").is_none());
    assert!(Config::parse("theme = \"dark\"\nfont_size = 14\ntab_size = 4\nauto_save = maybe\nline_numbers = true\n").is_none());
    // Trailing text past the last line is rejected too.
    assert!(Config::parse("theme = \"dark\"\nfont_size = 14\ntab_size = 4\nauto_save = false\nline_numbers = true\nx").is_none());
}

#[test]
fn hidden_entries_are_excluded_from_presentation() {
    assert!(is_hidden_entry(".git"));
    assert!(is_hidden_entry(".config"));
    assert!(is_hidden_entry("target"));
    assert!(is_hidden_entry("node_modules"));
    assert!(is_hidden_entry("__pycache__"));
    assert!(!is_hidden_entry("src"));
    assert!(!is_hidden_entry("targets"));
    assert!(!is_hidden_entry(""));
}

#[test]
fn plugins_register_under_their_reported_name() {
    let mut pm: PluginManager<ExamplePlugin> = PluginManager::new();
    assert!(pm.list_plugins().is_empty());
    pm.register_plugin(ExamplePlugin);
    assert_eq!(pm.list_plugins(), vec!["example"]);
    // Registering under the same name replaces, never duplicates.
    pm.register_plugin(ExamplePlugin);
    assert_eq!(pm.list_plugins(), vec!["example"]);
}

#[test]
fn executing_plugins_by_name() {
    let mut pm: PluginManager<ExamplePlugin> = PluginManager::new();
    pm.register_plugin(ExamplePlugin);
    let mut ctx = PluginContext {
        selected_text: Some("chosen".to_string()),
        current_file: None,
        cursor_position: (3, 7),
    };
    pm.execute_plugin("example", &mut ctx);
    // An unknown name is a silent no-op.
    pm.execute_plugin("missing", &mut ctx);
    assert_eq!(pm.list_plugins(), vec!["example"]);
}

struct Stamp {
    mark: &'static str,
}

impl plugin::Plugin for Stamp {
    fn name(&self) -> &str {
        "stamp"
    }

    fn execute(&mut self, context: &mut plugin::PluginContext) {
        context.selected_text = Some(self.mark.to_string());
    }
}

#[test]
fn re_registering_a_name_stores_the_new_handler() {
    let mut pm: plugin::PluginManager<Stamp> = plugin::PluginManager::new();
    pm.register_plugin(Stamp { mark: "first" });
    pm.register_plugin(Stamp { mark: "second" });
    assert_eq!(pm.list_plugins(), vec!["stamp"]);
    let mut ctx = plugin::PluginContext { current_file: None, selected_text: None };
    pm.execute_plugin("stamp", &mut ctx);
    assert_eq!(ctx.selected_text.as_deref(), Some("second"));
}

struct ShoutPlugin {
    runs: usize,
}

impl plugin::Plugin for ShoutPlugin {
    fn name(&self) -> &str {
        "shout"
    }

    fn execute(&mut self, context: &mut plugin::PluginContext) {
        self.runs += 1;
        if let Some(text) = &context.selected_text {
            context.selected_text = Some(text.to_uppercase());
        }
    }
}

#[test]
fn user_defined_plugins_run_through_the_registry() {
    let mut pm: plugin::PluginManager<ShoutPlugin> = plugin::PluginManager::new();
    pm.register_plugin(ShoutPlugin { runs: 0 });
    let mut ctx = plugin::PluginContext {
        current_file: None,
        selected_text: Some("quiet".to_string()),
    };
    pm.execute_plugin("shout", &mut ctx);
    assert_eq!(ctx.selected_text.as_deref(), Some("QUIET"));
    pm.execute_plugin("nobody", &mut ctx);
    assert_eq!(ctx.selected_text.as_deref(), Some("QUIET"));
}
